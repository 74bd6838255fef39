//! The naming conventions of split archives: `{package}.part{N}.rar`,
//! `{package}.7z.{NNN}` and `{package}.z{NN}`.
use vstd::prelude::*;

verus! {

pub open spec fn is_ascii_digit(c: char) -> bool {
    '0' <= c && c <= '9'
}

/// `c` equals the lower-case pattern character `l`, ignoring ASCII case.
pub open spec fn char_eq_ignore_case(c: char, l: char) -> bool {
    c == l || ('a' <= l && l <= 'z' && c as u32 + 32 == l as u32)
}

/// `s` equals the lower-case pattern `pat`, ignoring ASCII case.
pub open spec fn eq_ignore_case(s: Seq<char>, pat: Seq<char>) -> bool {
    s.len() == pat.len() && forall|i: int| 0 <= i < s.len() ==> char_eq_ignore_case(s[i], pat[i])
}

/// `s` ends with the lower-case pattern `pat`, ignoring ASCII case.
pub open spec fn ends_with_ignore_case(s: Seq<char>, pat: Seq<char>) -> bool {
    pat.len() <= s.len() && eq_ignore_case(s.subrange(s.len() - pat.len(), s.len() as int), pat)
}

/// How many ASCII digits `s` ends with.
pub open spec fn trailing_digits(s: Seq<char>) -> nat
    decreases s.len(),
{
    if s.len() > 0 && is_ascii_digit(s.last()) {
        1 + trailing_digits(s.drop_last())
    } else {
        0
    }
}

/// The decimal value of a string of ASCII digits.
pub open spec fn digits_value(s: Seq<char>) -> nat
    decreases s.len(),
{
    if s.len() == 0 {
        0
    } else {
        digits_value(s.drop_last()) * 10 + (s.last() as nat - '0' as nat) as nat
    }
}

/// `s` with its last `k` characters removed.
pub open spec fn drop_end(s: Seq<char>, k: int) -> Seq<char> {
    s.subrange(0, s.len() - k)
}

/// The last `k` characters of `s`.
pub open spec fn keep_end(s: Seq<char>, k: int) -> Seq<char> {
    s.subrange(s.len() - k, s.len() as int)
}

/// `{package}.part{N}.rar` or `{package}.part{N}.exe`: the package and the
/// digits of `N`.
pub open spec fn rar_volume(name: Seq<char>) -> Option<(Seq<char>, Seq<char>)> {
    if ends_with_ignore_case(name, seq!['.', 'r', 'a', 'r']) || ends_with_ignore_case(
        name,
        seq!['.', 'e', 'x', 'e'],
    ) {
        let body = drop_end(name, 4);
        let k = trailing_digits(body) as int;
        let head = drop_end(body, k);
        if k >= 1 && ends_with_ignore_case(head, seq!['.', 'p', 'a', 'r', 't']) {
            Some((drop_end(head, 5), keep_end(body, k)))
        } else {
            None
        }
    } else {
        None
    }
}

/// `{package}.7z.{N}`, `{package}.zip.{N}` or `{package}.tar.{N}` with `N`
/// of three digits or more: the package and the digits of `N`.
pub open spec fn numbered_volume(name: Seq<char>) -> Option<(Seq<char>, Seq<char>)> {
    let k = trailing_digits(name) as int;
    let head = drop_end(name, k);
    if k >= 3 && head.len() >= 1 && head.last() == '.' {
        let stem = head.drop_last();
        if ends_with_ignore_case(stem, seq!['.', '7', 'z']) {
            Some((drop_end(stem, 3), keep_end(name, k)))
        } else if ends_with_ignore_case(stem, seq!['.', 'z', 'i', 'p']) || ends_with_ignore_case(
            stem,
            seq!['.', 't', 'a', 'r'],
        ) {
            Some((drop_end(stem, 4), keep_end(name, k)))
        } else {
            None
        }
    } else {
        None
    }
}

/// `{package}.z{N}` with `N` of two digits or more: the package and the
/// digits of `N`.
pub open spec fn zip_volume(name: Seq<char>) -> Option<(Seq<char>, Seq<char>)> {
    let k = trailing_digits(name) as int;
    let head = drop_end(name, k);
    if k >= 2 && ends_with_ignore_case(head, seq!['.', 'z']) {
        Some((drop_end(head, 2), keep_end(name, k)))
    } else {
        None
    }
}

/// The split-volume convention that `name` follows, tried in order: the
/// package and the digits of the volume number.
pub open spec fn split_volume(name: Seq<char>) -> Option<(Seq<char>, Seq<char>)> {
    match rar_volume(name) {
        Some(v) => Some(v),
        None => match numbered_volume(name) {
            Some(v) => Some(v),
            None => zip_volume(name),
        },
    }
}

/// Every character of `s` is an ASCII digit.
pub open spec fn all_digits(s: Seq<char>) -> bool {
    forall|i: int| 0 <= i < s.len() ==> is_ascii_digit(#[trigger] s[i])
}

/// `{package}.part{digits}.rar`.
pub open spec fn rar_part_name(package: Seq<char>, digits: Seq<char>) -> Seq<char> {
    package + seq!['.', 'p', 'a', 'r', 't'] + digits + seq!['.', 'r', 'a', 'r']
}

proof fn lemma_trailing_digits_concat(a: Seq<char>, d: Seq<char>)
    requires
        all_digits(d),
        a.len() > 0,
        !is_ascii_digit(a.last()),
    ensures
        trailing_digits(a + d) == d.len(),
    decreases d.len(),
{
    if d.len() == 0 {
        assert(a + d =~= a);
    } else {
        assert((a + d).drop_last() =~= a + d.drop_last());
        assert((a + d).last() == d.last());
        lemma_trailing_digits_concat(a, d.drop_last());
    }
}

/// A name `{package}.part{digits}.rar` reads as volume `digits` of
/// `package`.
pub proof fn lemma_rar_part_name(package: Seq<char>, digits: Seq<char>)
    requires
        digits.len() >= 1,
        all_digits(digits),
    ensures
        split_volume(rar_part_name(package, digits)) == Some((package, digits)),
{
    let part = seq!['.', 'p', 'a', 'r', 't'];
    let rar = seq!['.', 'r', 'a', 'r'];
    let name = rar_part_name(package, digits);
    let head = package + part;
    let body = head + digits;
    assert(name == body + rar);
    assert(name.subrange(name.len() - 4, name.len() as int) =~= rar);
    assert(ends_with_ignore_case(name, rar));
    assert(drop_end(name, 4) =~= body);
    assert(head.last() == 't');
    lemma_trailing_digits_concat(head, digits);
    assert(drop_end(body, digits.len() as int) =~= head);
    assert(head.subrange(head.len() - 5, head.len() as int) =~= part);
    assert(ends_with_ignore_case(head, part));
    assert(drop_end(head, 5) =~= package);
    assert(keep_end(body, digits.len() as int) =~= digits);
}

/// What a file name says about split volumes.
#[derive(Clone, Debug, PartialEq, Eq)]
pub enum VolumeName {
    /// Volume `volume` of the split archive `package`.
    Volume { package: String, volume: usize },
    /// A split-volume name whose number does not fit in `usize`.
    Unparsable,
    /// No split-volume convention applies.
    Plain,
}

/// The reading of `name` that `parse_volume_name` gives.
pub open spec fn volume_name_matches(name: Seq<char>, r: VolumeName) -> bool {
    match split_volume(name) {
        None => r == VolumeName::Plain,
        Some((package, digits)) => if digits_value(digits) <= usize::MAX {
            match r {
                VolumeName::Volume { package: p, volume } => p@ == package && volume
                    == digits_value(digits),
                _ => false,
            }
        } else {
            r == VolumeName::Unparsable
        },
    }
}

/// The first `m` digits of a digit string never exceed the whole.
proof fn lemma_digits_value_prefix(s: Seq<char>, m: int)
    requires
        0 <= m <= s.len(),
    ensures
        digits_value(s.subrange(0, m)) <= digits_value(s),
    decreases s.len(),
{
    if m < s.len() {
        assert(s.drop_last().subrange(0, m) =~= s.subrange(0, m));
        lemma_digits_value_prefix(s.drop_last(), m);
    } else {
        assert(s.subrange(0, m) =~= s);
    }
}

/// Whether the first `end` characters of `s` end with the lower-case pattern
/// `pat`, ignoring ASCII case.
fn ends_with_at(s: &str, end: usize, pat: &Vec<char>) -> (r: bool)
    requires
        end <= s@.len(),
    ensures
        r == ends_with_ignore_case(s@.subrange(0, end as int), pat@),
{
    let ghost head = s@.subrange(0, end as int);
    if pat.len() > end {
        return false;
    }
    let start = end - pat.len();
    let ghost tail = head.subrange(start as int, end as int);
    let mut i: usize = 0;
    while i < pat.len()
        invariant
            i <= pat.len(),
            start + pat.len() == end,
            end <= s@.len(),
            head == s@.subrange(0, end as int),
            tail == head.subrange(start as int, end as int),
            forall|j: int| 0 <= j < i ==> char_eq_ignore_case(tail[j], pat@[j]),
        decreases pat.len() - i,
    {
        let c = s.get_char(start + i);
        let l = pat[i];
        assert(tail[i as int] == c);
        if !(c == l || ('a' <= l && l <= 'z' && c as u32 == (l as u32) - 32)) {
            assert(!char_eq_ignore_case(tail[i as int], pat@[i as int]));
            return false;
        }
        i = i + 1;
    }
    true
}

/// How many ASCII digits the first `end` characters of `s` end with.
fn trailing_digits_at(s: &str, end: usize) -> (k: usize)
    requires
        end <= s@.len(),
    ensures
        k == trailing_digits(s@.subrange(0, end as int)),
        k <= end,
{
    let mut j = end;
    while j > 0 && is_digit_char(s.get_char(j - 1))
        invariant
            j <= end,
            end <= s@.len(),
            trailing_digits(s@.subrange(0, end as int)) == (end - j) + trailing_digits(
                s@.subrange(0, j as int),
            ),
        decreases j,
    {
        assert(s@.subrange(0, j as int).drop_last() =~= s@.subrange(0, j - 1));
        j = j - 1;
    }
    end - j
}

fn is_digit_char(c: char) -> (r: bool)
    ensures
        r == is_ascii_digit(c),
{
    '0' <= c && c <= '9'
}

/// The value of the digits `s[from..to]`, or `None` when it exceeds `usize`.
fn digits_value_at(s: &str, from: usize, to: usize) -> (r: Option<usize>)
    requires
        from <= to <= s@.len(),
        forall|i: int| from <= i < to ==> is_ascii_digit(#[trigger] s@[i]),
    ensures
        r == (if digits_value(s@.subrange(from as int, to as int)) <= usize::MAX {
            Some(digits_value(s@.subrange(from as int, to as int)) as usize)
        } else {
            None::<usize>
        }),
{
    let ghost whole = s@.subrange(from as int, to as int);
    let mut v: usize = 0;
    let mut j = from;
    assert(s@.subrange(from as int, from as int) =~= Seq::<char>::empty());
    while j < to
        invariant
            from <= j <= to,
            to <= s@.len(),
            whole == s@.subrange(from as int, to as int),
            forall|i: int| from <= i < to ==> is_ascii_digit(#[trigger] s@[i]),
            v == digits_value(s@.subrange(from as int, j as int)),
        decreases to - j,
    {
        let c = s.get_char(j);
        let d = (c as u32 - '0' as u32) as usize;
        assert(is_ascii_digit(s@[j as int]));
        let ghost next = s@.subrange(from as int, j + 1);
        assert(next.drop_last() =~= s@.subrange(from as int, j as int));
        assert(digits_value(next) == v * 10 + d);
        proof {
            assert(whole.subrange(0, j + 1 - from) =~= next);
            lemma_digits_value_prefix(whole, j + 1 - from);
        }
        match v.checked_mul(10) {
            None => {
                return None;
            },
            Some(t) => match t.checked_add(d) {
                None => {
                    return None;
                },
                Some(u) => {
                    v = u;
                },
            },
        }
        j = j + 1;
    }
    Some(v)
}

/// Where a matched name splits: the package is `name[..package_end]`, the
/// volume digits are `name[digits_start..digits_end]`.
pub open spec fn bounds_match(
    name: Seq<char>,
    spec_result: Option<(Seq<char>, Seq<char>)>,
    r: Option<(usize, usize, usize)>,
) -> bool {
    match spec_result {
        None => r is None,
        Some((package, digits)) => match r {
            Some((pe, ds, de)) => pe <= ds <= de <= name.len() && name.subrange(0, pe as int)
                == package && name.subrange(ds as int, de as int) == digits && (forall|i: int|
                ds <= i < de ==> is_ascii_digit(#[trigger] name[i])),
            None => false,
        },
    }
}

/// The digits that `trailing_digits` counts are digits.
proof fn lemma_trailing_digits_are_digits(s: Seq<char>)
    ensures
        trailing_digits(s) <= s.len(),
        forall|i: int|
            s.len() - trailing_digits(s) <= i < s.len() ==> is_ascii_digit(#[trigger] s[i]),
    decreases s.len(),
{
    if s.len() > 0 && is_ascii_digit(s.last()) {
        let t = s.drop_last();
        lemma_trailing_digits_are_digits(t);
        assert forall|i: int|
            s.len() - trailing_digits(s) <= i < s.len() implies is_ascii_digit(#[trigger] s[i]) by {
            if i < s.len() - 1 {
                assert(s[i] == t[i]);
            }
        }
    }
}

fn rar_volume_bounds(name: &str, n: usize) -> (r: Option<(usize, usize, usize)>)
    requires
        n == name@.len(),
    ensures
        bounds_match(name@, rar_volume(name@), r),
{
    let rar = vec!['.', 'r', 'a', 'r'];
    let exe = vec!['.', 'e', 'x', 'e'];
    let part = vec!['.', 'p', 'a', 'r', 't'];
    assert(rar@ =~= seq!['.', 'r', 'a', 'r']);
    assert(exe@ =~= seq!['.', 'e', 'x', 'e']);
    assert(part@ =~= seq!['.', 'p', 'a', 'r', 't']);
    assert(name@.subrange(0, n as int) =~= name@);
    if !(ends_with_at(name, n, &rar) || ends_with_at(name, n, &exe)) {
        return None;
    }
    let body_end = n - 4;
    let k = trailing_digits_at(name, body_end);
    let head_end = body_end - k;
    let ghost body = drop_end(name@, 4);
    assert(body =~= name@.subrange(0, body_end as int));
    assert(drop_end(body, k as int) =~= name@.subrange(0, head_end as int));
    if k >= 1 && ends_with_at(name, head_end, &part) {
        proof {
            lemma_trailing_digits_are_digits(body);
            let head = drop_end(body, k as int);
            assert(drop_end(head, 5) =~= name@.subrange(0, head_end - 5));
            assert(keep_end(body, k as int) =~= name@.subrange(head_end as int, body_end as int));
            assert forall|i: int| head_end <= i < body_end implies is_ascii_digit(
                #[trigger] name@[i],
            ) by {
                assert(name@[i] == body[i]);
            }
        }
        Some((head_end - 5, head_end, body_end))
    } else {
        None
    }
}

fn numbered_volume_bounds(name: &str, n: usize) -> (r: Option<(usize, usize, usize)>)
    requires
        n == name@.len(),
    ensures
        bounds_match(name@, numbered_volume(name@), r),
{
    let sevenz = vec!['.', '7', 'z'];
    let zip = vec!['.', 'z', 'i', 'p'];
    let tar = vec!['.', 't', 'a', 'r'];
    assert(sevenz@ =~= seq!['.', '7', 'z']);
    assert(zip@ =~= seq!['.', 'z', 'i', 'p']);
    assert(tar@ =~= seq!['.', 't', 'a', 'r']);
    assert(name@.subrange(0, n as int) =~= name@);
    let k = trailing_digits_at(name, n);
    let head_end = n - k;
    let ghost head = drop_end(name@, k as int);
    assert(head =~= name@.subrange(0, head_end as int));
    if k < 3 || head_end < 1 || name.get_char(head_end - 1) != '.' {
        return None;
    }
    let stem_end = head_end - 1;
    assert(head.drop_last() =~= name@.subrange(0, stem_end as int));
    proof {
        lemma_trailing_digits_are_digits(name@);
        assert(keep_end(name@, k as int) =~= name@.subrange(head_end as int, n as int));
    }
    if ends_with_at(name, stem_end, &sevenz) {
        assert(drop_end(head.drop_last(), 3) =~= name@.subrange(0, stem_end - 3));
        Some((stem_end - 3, head_end, n))
    } else if ends_with_at(name, stem_end, &zip) || ends_with_at(name, stem_end, &tar) {
        assert(drop_end(head.drop_last(), 4) =~= name@.subrange(0, stem_end - 4));
        Some((stem_end - 4, head_end, n))
    } else {
        None
    }
}

fn zip_volume_bounds(name: &str, n: usize) -> (r: Option<(usize, usize, usize)>)
    requires
        n == name@.len(),
    ensures
        bounds_match(name@, zip_volume(name@), r),
{
    let z = vec!['.', 'z'];
    assert(z@ =~= seq!['.', 'z']);
    assert(name@.subrange(0, n as int) =~= name@);
    let k = trailing_digits_at(name, n);
    let head_end = n - k;
    let ghost head = drop_end(name@, k as int);
    assert(head =~= name@.subrange(0, head_end as int));
    if k >= 2 && ends_with_at(name, head_end, &z) {
        proof {
            lemma_trailing_digits_are_digits(name@);
            assert(keep_end(name@, k as int) =~= name@.subrange(head_end as int, n as int));
            assert(drop_end(head, 2) =~= name@.subrange(0, head_end - 2));
        }
        Some((head_end - 2, head_end, n))
    } else {
        None
    }
}

/// Reads a file name against the split-volume conventions.
pub fn parse_volume_name(name: &str) -> (r: VolumeName)
    ensures
        volume_name_matches(name@, r),
{
    let n = name.unicode_len();
    let found = match rar_volume_bounds(name, n) {
        Some(b) => Some(b),
        None => match numbered_volume_bounds(name, n) {
            Some(b) => Some(b),
            None => zip_volume_bounds(name, n),
        },
    };
    assert(bounds_match(name@, split_volume(name@), found));
    match found {
        None => VolumeName::Plain,
        Some((pe, ds, de)) => match digits_value_at(name, ds, de) {
            None => VolumeName::Unparsable,
            Some(volume) => {
                let package = name.substring_char(0, pe).to_owned();
                VolumeName::Volume { package, volume }
            },
        },
    }
}

} // verus!
