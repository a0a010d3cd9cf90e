//! A pure model of file paths and the collision-free output path resolver.
//!
//! A path is a sequence of components (what the separators of the platform
//! separate); the last component is the file name. Whether a path exists on
//! disk is not a property of the path: the resolver is handed a snapshot of
//! the already-taken paths and works against that. The snapshot is taken
//! before the run starts, so two concurrent runs can still pick the same
//! name; the caller accepts that race rather than locking the tree.

use vstd::prelude::*;

use crate::policy::{ExistingAction, FileKind, ParsableAction};
use crate::text::{lower_chars, spec_decimal, format_u128};

verus! {

/// A file system path, split into its components.
#[derive(Debug)]
pub struct FilePath {
    pub components: Vec<String>,
}

impl View for FilePath {
    type V = Seq<Seq<char>>;

    open spec fn view(&self) -> Seq<Seq<char>> {
        self.components@.map(|i: int, s: String| s@)
    }
}

impl FilePath {
    /// The empty path, with no components.
    pub fn new() -> (p: FilePath)
        ensures
            p@ =~= Seq::<Seq<char>>::empty(),
    {
        FilePath { components: Vec::new() }
    }

    /// Builds a path from its components.
    pub fn from_components(components: Vec<String>) -> (p: FilePath)
        ensures
            p@.len() == components@.len(),
            forall|i: int| 0 <= i < components@.len() ==> p@[i] == components@[i]@,
    {
        FilePath { components }
    }

    /// Appends one component at the end.
    pub fn push_component(&mut self, c: String)
        ensures
            final(self)@ =~= old(self)@.push(c@),
    {
        self.components.push(c);
    }

    /// A copy of this path.
    pub fn duplicate(&self) -> (p: FilePath)
        ensures
            p@ =~= self@,
    {
        let mut components: Vec<String> = Vec::new();
        let n = self.components.len();
        let mut i: usize = 0;
        while i < n
            invariant
                n == self.components@.len(),
                i <= n,
                components@.len() == i,
                forall|j: int| 0 <= j < i ==> components@[j]@ == self.components@[j]@,
            decreases n - i,
        {
            components.push(self.components[i].clone());
            i += 1;
        }
        FilePath { components }
    }
}

/// Compares two paths component by component.
pub fn path_eq(a: &FilePath, b: &FilePath) -> (r: bool)
    ensures
        r == (a@ == b@),
{
    let n = a.components.len();
    if n != b.components.len() {
        return false;
    }
    let mut i: usize = 0;
    while i < n
        invariant
            n == a@.len(),
            n == b@.len(),
            i <= n,
            forall|j: int| 0 <= j < i ==> a@[j] == b@[j],
        decreases n - i,
    {
        if !(a.components[i] == b.components[i]) {
            proof {
                assert(a@[i as int] != b@[i as int]);
            }
            return false;
        }
        i += 1;
    }
    proof {
        assert(a@ =~~= b@);
    }
    true
}

/// The position of the dot that separates a file name from its extension:
/// the last dot in the name, except that a dot in the leading position does
/// not count (a name that is all extension has none). `-1` when the name has
/// no extension.
pub open spec fn spec_last_dot(name: Seq<char>) -> int
    decreases name.len(),
{
    if name.len() <= 1 {
        -1
    } else if name.last() == '.' {
        name.len() - 1
    } else {
        spec_last_dot(name.drop_last())
    }
}

/// The separating dot is never at the leading position and always inside
/// the name.
pub proof fn lemma_last_dot_range(name: Seq<char>)
    ensures
        spec_last_dot(name) == -1 || (1 <= spec_last_dot(name) < name.len() && name[spec_last_dot(
            name,
        )] == '.'),
    decreases name.len(),
{
    if name.len() <= 1 {
    } else if name.last() == '.' {
    } else {
        lemma_last_dot_range(name.drop_last());
    }
}

/// The extension of a file name, if it has one.
pub open spec fn spec_ext_of(name: Seq<char>) -> Option<Seq<char>> {
    if spec_last_dot(name) >= 1 {
        Some(name.skip(spec_last_dot(name) + 1))
    } else {
        None
    }
}

/// The file name without its extension and without the separating dot; the
/// whole name when there is no extension.
pub open spec fn spec_stem_of(name: Seq<char>) -> Seq<char> {
    if spec_last_dot(name) >= 1 {
        name.take(spec_last_dot(name))
    } else {
        name
    }
}

fn last_dot_of(name: &str) -> (r: Option<usize>)
    ensures
        match r {
            Some(i) => spec_last_dot(name@) == i as int && 1 <= i < name@.len(),
            None => spec_last_dot(name@) == -1,
        },
{
    let n = name.unicode_len();
    if n <= 1 {
        return None;
    }
    let mut best: Option<usize> = None;
    let mut i: usize = 1;
    proof {
        assert(name@.take(1int).len() <= 1);
    }
    while i < n
        invariant
            n == name@.len(),
            1 <= i <= n,
            match best {
                Some(b) => spec_last_dot(name@.take(i as int)) == b as int && 1 <= b < i,
                None => spec_last_dot(name@.take(i as int)) == -1,
            },
        decreases n - i,
    {
        let c = name.get_char(i);
        proof {
            assert(name@.take(i + 1).drop_last() =~= name@.take(i as int));
            assert(name@.take(i + 1).last() == name@[i as int]);
        }
        if c == '.' {
            best = Some(i);
        }
        i += 1;
    }
    proof {
        assert(name@.take(n as int) =~= name@);
    }
    best
}

/// Splits a file name into its stem and, when there is one, its extension.
pub fn split_name(name: &str) -> (r: (&str, Option<&str>))
    ensures
        r.0@ == spec_stem_of(name@),
        match r.1 {
            Some(e) => spec_ext_of(name@) == Some(e@),
            None => spec_ext_of(name@) is None,
        },
{
    let n = name.unicode_len();
    match last_dot_of(name) {
        Some(i) => {
            let stem = name.substring_char(0, i);
            let ext = name.substring_char(i + 1, n);
            proof {
                assert(stem@ =~= spec_stem_of(name@));
                assert(ext@ =~= name@.skip(spec_last_dot(name@) + 1));
            }
            (stem, Some(ext))
        },
        None => (name, None),
    }
}

/// The extension of a path: the extension of its last component.
pub open spec fn spec_path_ext(p: Seq<Seq<char>>) -> Option<Seq<char>> {
    if p.len() > 0 {
        spec_ext_of(p.last())
    } else {
        None
    }
}

/// Extensions that classify a file as a raw camera image.
pub open spec fn spec_is_raw_ext(e: Seq<char>) -> bool {
    ||| lower_chars(e) == "arw"@
    ||| lower_chars(e) == "cr2"@
    ||| lower_chars(e) == "raw"@
}

/// Extensions that classify a file as an already-encoded image.
pub open spec fn spec_is_img_ext(e: Seq<char>) -> bool {
    ||| lower_chars(e) == "jpg"@
    ||| lower_chars(e) == "jpeg"@
    ||| lower_chars(e) == "png"@
    ||| lower_chars(e) == "tiff"@
}

/// The kind of a file, read off its extension alone, ignoring letter case;
/// a missing or unknown extension is not an error but the Other kind.
pub open spec fn spec_file_kind(p: Seq<Seq<char>>) -> FileKind {
    match spec_path_ext(p) {
        Some(e) => if spec_is_raw_ext(e) {
            FileKind::Raw
        } else if spec_is_img_ext(e) {
            FileKind::Image
        } else {
            FileKind::Other
        },
        None => FileKind::Other,
    }
}

proof fn lemma_known_ext_literals()
    ensures
        lower_chars("arw"@) == "arw"@,
        lower_chars("cr2"@) == "cr2"@,
        lower_chars("raw"@) == "raw"@,
        lower_chars("jpg"@) == "jpg"@,
        lower_chars("jpeg"@) == "jpeg"@,
        lower_chars("png"@) == "png"@,
        lower_chars("tiff"@) == "tiff"@,
{
    reveal_strlit("arw");
    reveal_strlit("cr2");
    reveal_strlit("raw");
    reveal_strlit("jpg");
    reveal_strlit("jpeg");
    reveal_strlit("png");
    reveal_strlit("tiff");
    assert(lower_chars("arw"@) =~= "arw"@);
    assert(lower_chars("cr2"@) =~= "cr2"@);
    assert(lower_chars("raw"@) =~= "raw"@);
    assert(lower_chars("jpg"@) =~= "jpg"@);
    assert(lower_chars("jpeg"@) =~= "jpeg"@);
    assert(lower_chars("png"@) =~= "png"@);
    assert(lower_chars("tiff"@) =~= "tiff"@);
}

/// Classifies a file by its extension, case-insensitively: first against
/// the raw extensions, then the image extensions, and Other as the rest.
pub fn file_kind(path: &FilePath) -> (k: FileKind)
    ensures
        k == spec_file_kind(path@),
{
    proof {
        lemma_known_ext_literals();
    }
    let n = path.components.len();
    if n == 0 {
        return FileKind::Other;
    }
    let name: &String = &path.components[n - 1];
    proof {
        assert(path@.last() == name@);
    }
    let (_stem, ext) = split_name(name.as_str());
    match ext {
        None => FileKind::Other,
        Some(e) => {
            if crate::text::eq_ignore_ascii_case(e, "arw") || crate::text::eq_ignore_ascii_case(
                e,
                "cr2",
            ) || crate::text::eq_ignore_ascii_case(e, "raw") {
                FileKind::Raw
            } else if crate::text::eq_ignore_ascii_case(e, "jpg") || crate::text::eq_ignore_ascii_case(
                e,
                "jpeg",
            ) || crate::text::eq_ignore_ascii_case(e, "png") || crate::text::eq_ignore_ascii_case(
                e,
                "tiff",
            ) {
                FileKind::Image
            } else {
                FileKind::Other
            }
        },
    }
}

/// The components of a path joined with `/` separators, for messages and
/// reports.
pub open spec fn spec_join_path(p: Seq<Seq<char>>) -> Seq<char>
    decreases p.len(),
{
    if p.len() == 0 {
        Seq::empty()
    } else if p.len() == 1 {
        p[0]
    } else {
        spec_join_path(p.drop_last()) + seq!['/'] + p.last()
    }
}

/// Renders a path with `/` between its components.
pub fn join_path(p: &FilePath) -> (s: String)
    ensures
        s@ == spec_join_path(p@),
{
    proof {
        reveal_strlit("/");
    }
    let n = p.components.len();
    let mut s = String::new();
    if n == 0 {
        proof {
            assert(s@ =~= spec_join_path(p@));
        }
        return s;
    }
    s.append(p.components[0].as_str());
    let mut i: usize = 1;
    proof {
        assert(s@ =~= spec_join_path(p@.take(1int)));
    }
    while i < n
        invariant
            n == p@.len(),
            1 <= i <= n,
            s@ == spec_join_path(p@.take(i as int)),
        decreases n - i,
    {
        s.append("/");
        s.append(p.components[i].as_str());
        proof {
            reveal_strlit("/");
            assert(p@.take(i + 1).drop_last() =~= p@.take(i as int));
            assert(p@.take(i + 1).last() == p@[i as int]);
            assert(p@[i as int] == p.components@[i as int]@);
            assert("/"@ =~= seq!['/']);
            assert(s@ =~= spec_join_path(p@.take(i + 1)));
        }
        i += 1;
    }
    proof {
        assert(p@.take(n as int) =~= p@);
    }
    s
}

/// Why the resolver could not produce an output path for an input.
#[derive(Copy, Clone, Debug, PartialEq, Eq, Structural)]
pub enum ResolveError {
    /// The input path does not lie under the input base directory.
    PathNotUnderBase,
    /// Every candidate name within the probe bound was already taken.
    NoUnusedPath,
}

/// Whether `base` is a leading run of `p`'s components.
pub open spec fn spec_is_prefix(base: Seq<Seq<char>>, p: Seq<Seq<char>>) -> bool {
    base.len() <= p.len() && p.take(base.len() as int) == base
}

/// The path made of the part of `p` below `old_base`, joined onto
/// `new_base`.
pub open spec fn spec_switch_base(
    p: Seq<Seq<char>>,
    old_base: Seq<Seq<char>>,
    new_base: Seq<Seq<char>>,
) -> Seq<Seq<char>> {
    new_base + p.skip(old_base.len() as int)
}

/// Rebases `path` from `old_base` onto `new_base`: strips `old_base` as a
/// component prefix and joins the remainder onto `new_base`.
pub fn switch_base(path: &FilePath, old_base: &FilePath, new_base: &FilePath) -> (r: Result<
    FilePath,
    ResolveError,
>)
    ensures
        match r {
            Ok(q) => spec_is_prefix(old_base@, path@) && q@ == spec_switch_base(
                path@,
                old_base@,
                new_base@,
            ),
            Err(e) => !spec_is_prefix(old_base@, path@) && e == ResolveError::PathNotUnderBase,
        },
{
    let bl = old_base.components.len();
    let pl = path.components.len();
    if bl > pl {
        return Err(ResolveError::PathNotUnderBase);
    }
    let mut i: usize = 0;
    while i < bl
        invariant
            bl == old_base@.len(),
            pl == path@.len(),
            bl <= pl,
            i <= bl,
            forall|j: int| 0 <= j < i ==> path@[j] == old_base@[j],
        decreases bl - i,
    {
        if !(path.components[i] == old_base.components[i]) {
            proof {
                assert(path@[i as int] != old_base@[i as int]);
            }
            return Err(ResolveError::PathNotUnderBase);
        }
        i += 1;
    }
    proof {
        assert(path@.take(bl as int) =~~= old_base@);
    }
    let mut out = new_base.duplicate();
    let mut k: usize = bl;
    while k < pl
        invariant
            bl == old_base@.len(),
            pl == path@.len(),
            bl <= k <= pl,
            out@ =~= new_base@ + path@.subrange(bl as int, k as int),
        decreases pl - k,
    {
        out.push_component(path.components[k].clone());
        proof {
            assert(new_base@ + path@.subrange(bl as int, k + 1) =~= (new_base@ + path@.subrange(
                bl as int,
                k as int,
            )).push(path@[k as int]));
        }
        k += 1;
    }
    proof {
        assert(out@ =~~= spec_switch_base(path@, old_base@, new_base@));
    }
    Ok(out)
}

/// The path with the extension of its file name replaced by `ext` (or the
/// dot and extension dropped when `ext` is empty); a path without a file
/// name is left unchanged.
pub open spec fn spec_with_extension(p: Seq<Seq<char>>, ext: Seq<char>) -> Seq<Seq<char>> {
    if p.len() == 0 {
        p
    } else {
        let name = p.last();
        let newname = if ext.len() == 0 {
            spec_stem_of(name)
        } else {
            spec_stem_of(name) + seq!['.'] + ext
        };
        p.update(p.len() - 1, newname)
    }
}

/// Replaces the extension of the path's file name.
pub fn with_extension(path: &FilePath, ext: &str) -> (q: FilePath)
    ensures
        q@ == spec_with_extension(path@, ext@),
{
    let n = path.components.len();
    if n == 0 {
        let q = path.duplicate();
        proof {
            assert(q@ =~~= spec_with_extension(path@, ext@));
        }
        return q;
    }
    let name: &String = &path.components[n - 1];
    proof {
        assert(path@.last() == name@);
        reveal_strlit(".");
    }
    let (stem, _e) = split_name(name.as_str());
    let mut newname = stem.to_owned();
    if ext.unicode_len() > 0 {
        newname.append(".");
        newname.append(ext);
    }
    let mut out = FilePath::new();
    let mut i: usize = 0;
    while i < n - 1
        invariant
            n == path@.len(),
            1 <= n,
            i <= n - 1,
            out@ =~= path@.take(i as int),
        decreases n - 1 - i,
    {
        out.push_component(path.components[i].clone());
        proof {
            assert(path@.take(i + 1) =~= path@.take(i as int).push(path@[i as int]));
        }
        i += 1;
    }
    out.push_component(newname);
    proof {
        assert(out@ =~~= spec_with_extension(path@, ext@));
    }
    out
}

/// A snapshot of the output paths that are already taken.
pub struct ExistingPaths {
    pub paths: Vec<FilePath>,
}

impl ExistingPaths {
    /// Whether the snapshot holds `p`.
    pub open spec fn spec_contains(&self, p: Seq<Seq<char>>) -> bool {
        exists|i: int| 0 <= i < self.paths@.len() && self.paths@[i]@ == p
    }

    /// An empty snapshot: no path is taken.
    pub fn new() -> (r: ExistingPaths)
        ensures
            forall|p: Seq<Seq<char>>| !r.spec_contains(p),
    {
        ExistingPaths { paths: Vec::new() }
    }

    /// Records one more taken path.
    pub fn push(&mut self, p: FilePath)
        ensures
            forall|q: Seq<Seq<char>>|
                final(self).spec_contains(q) <==> old(self).spec_contains(q) || q == p@,
    {
        let ghost pv = p@;
        self.paths.push(p);
        proof {
            assert(forall|q: Seq<Seq<char>>|
                final(self).spec_contains(q) <==> old(self).spec_contains(q) || q == pv) by {
                assert(forall|i: int|
                    0 <= i < old(self).paths@.len() ==> final(self).paths@[i] == old(
                        self,
                    ).paths@[i]);
                assert(final(self).paths@[old(self).paths@.len() as int]@ == pv);
            }
        }
    }

    /// Whether `p` is among the taken paths.
    pub fn contains(&self, p: &FilePath) -> (r: bool)
        ensures
            r == self.spec_contains(p@),
    {
        let n = self.paths.len();
        let mut i: usize = 0;
        while i < n
            invariant
                n == self.paths@.len(),
                i <= n,
                forall|j: int| 0 <= j < i ==> self.paths@[j]@ != p@,
            decreases n - i,
        {
            if path_eq(&self.paths[i], p) {
                return true;
            }
            i += 1;
        }
        false
    }
}

/// How many numbered names the unused-path search probes before giving up:
/// the search must not run without bound, so one past this many collisions
/// is reported as `NoUnusedPath`.
pub const MAX_RENAME_ATTEMPTS: u64 = 10000;

/// The `i`-th numbered alternative for a taken path: `_i` is inserted after
/// the file name's stem, keeping the extension.
pub open spec fn spec_rename_candidate(p: Seq<Seq<char>>, i: int) -> Seq<Seq<char>> {
    let name = p.last();
    let suffixed = spec_stem_of(name) + seq!['_'] + spec_decimal(i);
    let newname = match spec_ext_of(name) {
        Some(e) => suffixed + seq!['.'] + e,
        None => suffixed,
    };
    p.update(p.len() - 1, newname)
}

/// The first `i`, counting from `from`, whose numbered candidate is not yet
/// taken; `-1` when every candidate up to the probe bound is taken.
pub open spec fn spec_first_unused_from(ex: ExistingPaths, p: Seq<Seq<char>>, from: int) -> int
    decreases MAX_RENAME_ATTEMPTS + 1 - from,
{
    if from < 1 || from > MAX_RENAME_ATTEMPTS {
        -1
    } else if !ex.spec_contains(spec_rename_candidate(p, from)) {
        from
    } else {
        spec_first_unused_from(ex, p, from + 1)
    }
}

/// The number of the first free candidate for `p`, or `-1` when the whole
/// probe range is taken.
pub open spec fn spec_first_unused(ex: ExistingPaths, p: Seq<Seq<char>>) -> int {
    spec_first_unused_from(ex, p, 1)
}

/// What `spec_first_unused` returns: either the least free candidate
/// number, with everything below it taken, or `-1` with the whole probe
/// range taken.
pub proof fn lemma_first_unused(ex: ExistingPaths, p: Seq<Seq<char>>)
    ensures
        spec_first_unused(ex, p) == -1 ==> forall|i: int|
            1 <= i <= MAX_RENAME_ATTEMPTS ==> ex.spec_contains(#[trigger] spec_rename_candidate(p, i)),
        spec_first_unused(ex, p) >= 1 ==> {
            &&& spec_first_unused(ex, p) <= MAX_RENAME_ATTEMPTS
            &&& !ex.spec_contains(spec_rename_candidate(p, spec_first_unused(ex, p)))
            &&& forall|j: int|
                1 <= j < spec_first_unused(ex, p) ==> ex.spec_contains(
                    #[trigger] spec_rename_candidate(p, j),
                )
        },
{
    lemma_first_unused_from(ex, p, 1);
}

proof fn lemma_first_unused_from(ex: ExistingPaths, p: Seq<Seq<char>>, from: int)
    requires
        1 <= from,
    ensures
        spec_first_unused_from(ex, p, from) == -1 ==> forall|i: int|
            from <= i <= MAX_RENAME_ATTEMPTS ==> ex.spec_contains(
                #[trigger] spec_rename_candidate(p, i),
            ),
        spec_first_unused_from(ex, p, from) >= 1 ==> {
            &&& from <= spec_first_unused_from(ex, p, from) <= MAX_RENAME_ATTEMPTS
            &&& !ex.spec_contains(spec_rename_candidate(p, spec_first_unused_from(ex, p, from)))
            &&& forall|j: int|
                from <= j < spec_first_unused_from(ex, p, from) ==> ex.spec_contains(
                    #[trigger] spec_rename_candidate(p, j),
                )
        },
    decreases MAX_RENAME_ATTEMPTS + 1 - from,
{
    if from > MAX_RENAME_ATTEMPTS {
    } else if !ex.spec_contains(spec_rename_candidate(p, from)) {
    } else {
        lemma_first_unused_from(ex, p, from + 1);
    }
}

fn build_candidate(orig: &FilePath, i: u64) -> (q: FilePath)
    requires
        orig@.len() > 0,
    ensures
        q@ == spec_rename_candidate(orig@, i as int),
{
    proof {
        reveal_strlit("_");
        reveal_strlit(".");
    }
    let n = orig.components.len();
    let name: &String = &orig.components[n - 1];
    proof {
        assert(orig@.last() == name@);
    }
    let (stem, ext) = split_name(name.as_str());
    let mut newname = stem.to_owned();
    newname.append("_");
    let digits = format_u128(i as u128);
    newname.append(digits.as_str());
    if let Some(e) = ext {
        newname.append(".");
        newname.append(e);
    }
    let mut out = FilePath::new();
    let mut k: usize = 0;
    while k < n - 1
        invariant
            n == orig@.len(),
            1 <= n,
            k <= n - 1,
            out@ =~= orig@.take(k as int),
        decreases n - 1 - k,
    {
        out.push_component(orig.components[k].clone());
        proof {
            assert(orig@.take(k + 1) =~= orig@.take(k as int).push(orig@[k as int]));
        }
        k += 1;
    }
    out.push_component(newname);
    proof {
        assert(out@ =~~= spec_rename_candidate(orig@, i as int));
    }
    out
}

/// Finds the first numbered alternative for `orig` that is not yet taken,
/// probing `stem_1.ext`, `stem_2.ext`, ... in increasing order up to the
/// probe bound.
pub fn unused_path(orig: &FilePath, existing: &ExistingPaths) -> (r: Result<FilePath, ResolveError>)
    ensures
        match r {
            Ok(q) => orig@.len() > 0 && spec_first_unused(*existing, orig@) >= 1 && q@
                == spec_rename_candidate(orig@, spec_first_unused(*existing, orig@)),
            Err(e) => e == ResolveError::NoUnusedPath && (orig@.len() == 0 || spec_first_unused(
                *existing,
                orig@,
            ) == -1),
        },
{
    if orig.components.len() == 0 {
        return Err(ResolveError::NoUnusedPath);
    }
    let mut i: u64 = 1;
    while i <= MAX_RENAME_ATTEMPTS
        invariant
            orig@.len() > 0,
            1 <= i <= MAX_RENAME_ATTEMPTS + 1,
            spec_first_unused(*existing, orig@) == spec_first_unused_from(
                *existing,
                orig@,
                i as int,
            ),
        decreases MAX_RENAME_ATTEMPTS + 1 - i,
    {
        let cand = build_candidate(orig, i);
        if !existing.contains(&cand) {
            return Ok(cand);
        }
        i += 1;
    }
    Err(ResolveError::NoUnusedPath)
}

/// The output path before the collision check: the input rebased onto the
/// output base, with the extension substituted when a raw file is to be
/// parsed.
pub open spec fn spec_substituted(
    input: Seq<Seq<char>>,
    input_base: Seq<Seq<char>>,
    output_base: Seq<Seq<char>>,
    extension: Seq<char>,
    on_raw: ParsableAction,
) -> Seq<Seq<char>> {
    let rebased = spec_switch_base(input, input_base, output_base);
    if spec_file_kind(input) == FileKind::Raw && on_raw == ParsableAction::Parse {
        spec_with_extension(rebased, extension)
    } else {
        rebased
    }
}

/// The resolver's result as a value: the substituted path itself when it is
/// free or may be overwritten, its first free numbered alternative under the
/// Rename policy, and nothing when the input is not under the base or no
/// alternative is free.
pub open spec fn spec_resolution(
    input: Seq<Seq<char>>,
    input_base: Seq<Seq<char>>,
    output_base: Seq<Seq<char>>,
    extension: Seq<char>,
    on_raw: ParsableAction,
    on_existing: ExistingAction,
    ex: ExistingPaths,
) -> Option<Seq<Seq<char>>> {
    if !spec_is_prefix(input_base, input) {
        None
    } else {
        let t = spec_substituted(input, input_base, output_base, extension, on_raw);
        if ex.spec_contains(t) && on_existing == ExistingAction::Rename {
            if t.len() > 0 && spec_first_unused(ex, t) >= 1 {
                Some(spec_rename_candidate(t, spec_first_unused(ex, t)))
            } else {
                None
            }
        } else {
            Some(t)
        }
    }
}

/// Computes the collision-free output path for one input: rebases it onto
/// the output base, substitutes the target extension for raw files that
/// will be parsed, and, when the result is already taken and the policy is
/// Rename, searches for the first free numbered alternative. A taken result
/// under the Ignore policy is returned as is: the job layer skips it.
pub fn output_path(
    input: &FilePath,
    input_base: &FilePath,
    output_base: &FilePath,
    extension: &str,
    on_raw: ParsableAction,
    on_existing: ExistingAction,
    existing: &ExistingPaths,
) -> (r: Result<FilePath, ResolveError>)
    ensures
        match r {
            Ok(q) => spec_resolution(
                input@,
                input_base@,
                output_base@,
                extension@,
                on_raw,
                on_existing,
                *existing,
            ) == Some(q@),
            Err(e) => spec_resolution(
                input@,
                input_base@,
                output_base@,
                extension@,
                on_raw,
                on_existing,
                *existing,
            ) is None && e == (if !spec_is_prefix(input_base@, input@) {
                ResolveError::PathNotUnderBase
            } else {
                ResolveError::NoUnusedPath
            }),
        },
{
    let rebased = match switch_base(input, input_base, output_base) {
        Ok(p) => p,
        Err(e) => {
            return Err(e);
        },
    };
    let kind = file_kind(input);
    let target = if kind == FileKind::Raw && on_raw == ParsableAction::Parse {
        with_extension(&rebased, extension)
    } else {
        rebased
    };
    if existing.contains(&target) && on_existing == ExistingAction::Rename {
        unused_path(&target, existing)
    } else {
        Ok(target)
    }
}

/// Classification is a function of the case-folded extension alone: two
/// paths whose extensions agree up to ASCII letter case (or that both lack
/// one) classify the same. With the same path given twice this also says
/// that re-classifying it cannot change the answer.
pub proof fn lemma_classify_case_insensitive(p: Seq<Seq<char>>, q: Seq<Seq<char>>)
    requires
        match (spec_path_ext(p), spec_path_ext(q)) {
            (Some(e1), Some(e2)) => lower_chars(e1) == lower_chars(e2),
            (None, None) => true,
            _ => false,
        },
    ensures
        spec_file_kind(p) == spec_file_kind(q),
{
}

/// A decimal rendering is never empty and never holds a dot.
proof fn lemma_decimal_clean(n: int)
    ensures
        spec_decimal(n).len() >= 1,
        forall|k: int| 0 <= k < spec_decimal(n).len() ==> spec_decimal(n)[k] != '.',
    decreases n,
{
    if n >= 10 {
        lemma_decimal_clean(n / 10);
    }
}

/// Appending dot-free text does not move the extension dot.
proof fn lemma_last_dot_append_clean(s: Seq<char>, t: Seq<char>)
    requires
        forall|k: int| 0 <= k < t.len() ==> t[k] != '.',
    ensures
        spec_last_dot(s + t) == spec_last_dot(s),
    decreases t.len(),
{
    if t.len() == 0 {
        assert(s + t =~= s);
    } else {
        let st = s + t;
        if st.len() <= 1 {
            if s.len() <= 1 {
            }
        } else {
            assert(st.last() == t.last());
            assert(st.drop_last() =~= s + t.drop_last());
            lemma_last_dot_append_clean(s, t.drop_last());
        }
    }
}

/// Appending a dot and a dot-free extension puts the extension dot exactly
/// between them.
proof fn lemma_last_dot_with_ext(s: Seq<char>, e: Seq<char>)
    requires
        s.len() >= 1,
        forall|k: int| 0 <= k < e.len() ==> e[k] != '.',
    ensures
        spec_last_dot(s + seq!['.'] + e) == s.len(),
        spec_ext_of(s + seq!['.'] + e) == Some(e),
        spec_stem_of(s + seq!['.'] + e) == s,
{
    let sd = s + seq!['.'];
    assert((s + seq!['.'] + e) =~= sd + e);
    lemma_last_dot_append_clean(sd, e);
    assert(sd.len() == s.len() + 1);
    assert(sd.last() == '.');
    assert(spec_last_dot(sd) == s.len());
    assert((sd + e).skip(s.len() as int + 1) =~= e);
    assert((sd + e).take(s.len() as int) =~= s);
}

/// Nothing after the extension dot is itself a dot.
proof fn lemma_no_dot_after_last(name: Seq<char>)
    ensures
        forall|k: int| spec_last_dot(name) < k < name.len() && k >= 1 ==> name[k] != '.',
    decreases name.len(),
{
    if name.len() <= 1 {
    } else if name.last() == '.' {
    } else {
        lemma_no_dot_after_last(name.drop_last());
        assert(forall|k: int|
            spec_last_dot(name) < k < name.len() - 1 && k >= 1 ==> name.drop_last()[k] == name[k]);
    }
}

/// A numbered rename candidate keeps the file name's extension: the number
/// is spliced in between the stem and the dot.
proof fn lemma_candidate_ext(p: Seq<Seq<char>>, i: int)
    requires
        p.len() > 0,
    ensures
        spec_rename_candidate(p, i).len() == p.len(),
        spec_ext_of(spec_rename_candidate(p, i).last()) == spec_ext_of(p.last()),
{
    let name = p.last();
    let suffixed = spec_stem_of(name) + seq!['_'] + spec_decimal(i);
    lemma_decimal_clean(i);
    lemma_last_dot_range(name);
    assert(forall|k: int|
        0 <= k < (seq!['_'] + spec_decimal(i)).len() ==> (seq!['_'] + spec_decimal(i))[k] != '.');
    match spec_ext_of(name) {
        Some(e) => {
            lemma_no_dot_after_last(name);
            assert(forall|k: int| 0 <= k < e.len() ==> e[k] != '.');
            assert(suffixed.len() >= 1);
            lemma_last_dot_with_ext(suffixed, e);
            assert(spec_rename_candidate(p, i).last() == suffixed + seq!['.'] + e);
        },
        None => {
            assert(spec_stem_of(name) == name);
            assert(suffixed =~= name + (seq!['_'] + spec_decimal(i)));
            lemma_last_dot_append_clean(name, seq!['_'] + spec_decimal(i));
            assert(spec_rename_candidate(p, i).last() == suffixed);
        },
    }
}

/// The resolver's round trip on extensions: when a raw input is to be
/// parsed, the resolved path carries the encoder's target extension; in
/// every other case it carries the input's own extension. This holds for
/// the substituted path and for every numbered alternative the Rename
/// policy may pick. The input must lie strictly under the input base (it is
/// a file in that tree), and a target extension is a real one: non-empty
/// and without a dot.
pub proof fn lemma_resolved_extension(
    input: Seq<Seq<char>>,
    input_base: Seq<Seq<char>>,
    output_base: Seq<Seq<char>>,
    extension: Seq<char>,
    on_raw: ParsableAction,
    on_existing: ExistingAction,
    ex: ExistingPaths,
    q: Seq<Seq<char>>,
)
    requires
        spec_resolution(input, input_base, output_base, extension, on_raw, on_existing, ex)
            == Some(q),
        input_base.len() < input.len(),
        extension.len() > 0,
        forall|k: int| 0 <= k < extension.len() ==> extension[k] != '.',
    ensures
        spec_file_kind(input) == FileKind::Raw && on_raw == ParsableAction::Parse
            ==> spec_path_ext(q) == Some(extension),
        !(spec_file_kind(input) == FileKind::Raw && on_raw == ParsableAction::Parse)
            ==> spec_path_ext(q) == spec_path_ext(input),
{
    let rebased = spec_switch_base(input, input_base, output_base);
    let bl = input_base.len() as int;
    assert(rebased.len() > 0);
    assert(rebased.last() == input.last());
    let t = spec_substituted(input, input_base, output_base, extension, on_raw);
    if spec_file_kind(input) == FileKind::Raw && on_raw == ParsableAction::Parse {
        let name = rebased.last();
        lemma_last_dot_range(name);
        assert(spec_path_ext(input) is Some);
        assert(spec_last_dot(name) >= 1);
        assert(spec_stem_of(name).len() >= 1);
        lemma_last_dot_with_ext(spec_stem_of(name), extension);
        assert(t == spec_with_extension(rebased, extension));
        assert(t.last() == spec_stem_of(name) + seq!['.'] + extension);
        assert(spec_ext_of(t.last()) == Some(extension));
        assert(t.len() == rebased.len());
    } else {
        assert(t == rebased);
        assert(spec_ext_of(t.last()) == spec_path_ext(input));
    }
    if ex.spec_contains(t) && on_existing == ExistingAction::Rename {
        let i = spec_first_unused(ex, t);
        assert(q == spec_rename_candidate(t, i));
        lemma_candidate_ext(t, i);
        assert(spec_rename_candidate(t, i).last() == q.last());
    } else {
        assert(q == t);
    }
}

} // verus!
