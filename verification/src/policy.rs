//! Pure path policy: classifies names and relative paths.
//!
//! All paths and file names are handled as byte strings (`Vec<u8>` /
//! `&[u8]`), the form in which the notification facility reports them.

use vstd::prelude::*;

verus! {

/// The path separator byte, `/`.
pub const SLASH: u8 = 47;

/// The dot byte, `.`; a leading dot marks a hidden entry.
pub const DOT: u8 = 46;

/// A hidden entry: a non-empty name whose first byte is a dot.
pub open spec fn is_hidden_spec(name: Seq<u8>) -> bool {
    name.len() > 0 && name[0] == DOT
}

/// True when `s` ends with `suffix`.
pub open spec fn ends_with_spec(s: Seq<u8>, suffix: Seq<u8>) -> bool {
    s.len() >= suffix.len() && s.skip(s.len() - suffix.len()) == suffix
}

/// True when `s` starts with `prefix`.
pub open spec fn starts_with_spec(s: Seq<u8>, prefix: Seq<u8>) -> bool {
    s.len() >= prefix.len() && s.take(prefix.len() as int) == prefix
}

/// Reports whether a name is hidden (begins with a dot).
pub fn is_hidden(name: &[u8]) -> (r: bool)
    ensures
        r == is_hidden_spec(name@),
{
    name.len() > 0 && name[0] == DOT
}

/// Byte-wise equality of two byte strings.
pub fn bytes_eq(a: &[u8], b: &[u8]) -> (r: bool)
    ensures
        r == (a@ == b@),
{
    if a.len() != b.len() {
        return false;
    }
    let mut i: usize = 0;
    while i < a.len()
        invariant
            i <= a.len(),
            a.len() == b.len(),
            forall|j: int| 0 <= j < i ==> a@[j] == b@[j],
        decreases a.len() - i,
    {
        if a[i] != b[i] {
            return false;
        }
        i += 1;
    }
    proof {
        assert(a@ =~= b@);
    }
    true
}

/// Reports whether `s` ends with `suffix`.
pub fn ends_with(s: &[u8], suffix: &[u8]) -> (r: bool)
    ensures
        r == ends_with_spec(s@, suffix@),
{
    if s.len() < suffix.len() {
        return false;
    }
    let start: usize = s.len() - suffix.len();
    let mut i: usize = 0;
    while i < suffix.len()
        invariant
            i <= suffix.len(),
            start == s.len() - suffix.len(),
            s.len() >= suffix.len(),
            forall|j: int| 0 <= j < i ==> s@[start + j] == suffix@[j],
        decreases suffix.len() - i,
    {
        if s[start + i] != suffix[i] {
            proof {
                assert(s@.skip(s@.len() - suffix@.len())[i as int] != suffix@[i as int]);
            }
            return false;
        }
        i += 1;
    }
    proof {
        assert(s@.skip(s@.len() - suffix@.len()) =~= suffix@);
    }
    true
}

/// Reports whether `s` starts with `prefix`.
pub fn starts_with(s: &[u8], prefix: &[u8]) -> (r: bool)
    ensures
        r == starts_with_spec(s@, prefix@),
{
    if s.len() < prefix.len() {
        return false;
    }
    let mut i: usize = 0;
    while i < prefix.len()
        invariant
            i <= prefix.len(),
            s.len() >= prefix.len(),
            forall|j: int| 0 <= j < i ==> s@[j] == prefix@[j],
        decreases prefix.len() - i,
    {
        if s[i] != prefix[i] {
            proof {
                assert(s@.take(prefix@.len() as int)[i as int] != prefix@[i as int]);
            }
            return false;
        }
        i += 1;
    }
    proof {
        assert(s@.take(prefix@.len() as int) =~= prefix@);
    }
    true
}

/// Index of the first separator in `path`, or `path.len()` if none.
pub open spec fn first_slash(path: Seq<u8>) -> int
    decreases path.len(),
{
    if path.len() == 0 {
        0
    } else if path[0] == SLASH {
        0
    } else {
        1 + first_slash(path.skip(1))
    }
}

/// The first path component of `path`: everything before the first separator.
pub open spec fn first_component(path: Seq<u8>) -> Seq<u8> {
    path.take(first_slash(path))
}

proof fn lemma_first_slash_at(path: Seq<u8>, i: int)
    requires
        0 <= i <= path.len(),
        forall|j: int| 0 <= j < i ==> path[j] != SLASH,
        i == path.len() || path[i] == SLASH,
    ensures
        first_slash(path) == i,
    decreases i,
{
    if i > 0 {
        lemma_first_slash_at(path.skip(1), i - 1);
    }
}

/// The folder-name suffix `Camera`.
pub open spec fn camera_suffix() -> Seq<u8> {
    seq!['C' as u8, 'a' as u8, 'm' as u8, 'e' as u8, 'r' as u8, 'a' as u8]
}

/// The folder-name suffix `_PRO`.
pub open spec fn pro_suffix() -> Seq<u8> {
    seq!['_' as u8, 'P' as u8, 'R' as u8, 'O' as u8]
}

/// The exact folder name `100ANDRO`.
pub open spec fn andro_name() -> Seq<u8> {
    seq!['1' as u8, '0' as u8, '0' as u8, 'A' as u8, 'N' as u8, 'D' as u8, 'R' as u8, 'O' as u8]
}

/// The directory-name prefix `DSC_20` that marks already-processed folders.
pub open spec fn processed_prefix() -> Seq<u8> {
    seq!['D' as u8, 'S' as u8, 'C' as u8, '_' as u8, '2' as u8, '0' as u8]
}

/// An image-capable directory: its first path component names a camera
/// folder (ends with `Camera` or `_PRO`, or is exactly `100ANDRO`).
pub open spec fn is_img_dir_spec(dir: Seq<u8>) -> bool {
    ||| ends_with_spec(first_component(dir), camera_suffix())
    ||| ends_with_spec(first_component(dir), pro_suffix())
    ||| first_component(dir) == andro_name()
}

/// A directory name to be skipped during a scan: only in in-place mode, and
/// only when the bare name carries the processed-folder prefix.
pub open spec fn is_ignored_dir_spec(name: Seq<u8>, inplace: bool) -> bool {
    inplace && starts_with_spec(name, processed_prefix())
}

/// Classifies a relative directory path as image-capable.
pub fn is_img_dir(dir: &[u8]) -> (r: bool)
    ensures
        r == is_img_dir_spec(dir@),
{
    let mut n: usize = 0;
    while n < dir.len() && dir[n] != SLASH
        invariant
            n <= dir.len(),
            forall|j: int| 0 <= j < n ==> dir@[j] != SLASH,
        decreases dir.len() - n,
    {
        n += 1;
    }
    proof {
        lemma_first_slash_at(dir@, n as int);
    }
    let mut comp: Vec<u8> = Vec::new();
    let mut j: usize = 0;
    while j < n
        invariant
            j <= n,
            n <= dir.len(),
            comp@ =~= dir@.take(n as int).take(j as int),
        decreases n - j,
    {
        comp.push(dir[j]);
        j += 1;
    }
    proof {
        assert(comp@ =~= first_component(dir@));
    }
    let camera: Vec<u8> = vec!['C' as u8, 'a' as u8, 'm' as u8, 'e' as u8, 'r' as u8, 'a' as u8];
    let pro: Vec<u8> = vec!['_' as u8, 'P' as u8, 'R' as u8, 'O' as u8];
    let andro: Vec<u8> = vec![
        '1' as u8, '0' as u8, '0' as u8, 'A' as u8, 'N' as u8, 'D' as u8, 'R' as u8, 'O' as u8,
    ];
    proof {
        assert(camera@ =~= camera_suffix());
        assert(pro@ =~= pro_suffix());
        assert(andro@ =~= andro_name());
    }
    ends_with(comp.as_slice(), camera.as_slice())
        || ends_with(comp.as_slice(), pro.as_slice())
        || bytes_eq(comp.as_slice(), andro.as_slice())
}

/// Classifies a directory name as ignorable for a scan.
pub fn is_ignored_dir(name: &[u8], inplace: bool) -> (r: bool)
    ensures
        r == is_ignored_dir_spec(name@, inplace),
{
    if !inplace {
        return false;
    }
    let prefix: Vec<u8> = vec!['D' as u8, 'S' as u8, 'C' as u8, '_' as u8, '2' as u8, '0' as u8];
    proof {
        assert(prefix@ =~= processed_prefix());
    }
    starts_with(name, prefix.as_slice())
}

/// Index of the last dot in `name` that can begin an extension (a dot at the
/// very front marks a hidden name, not an extension), or `-1` if none.
pub open spec fn last_dot(name: Seq<u8>) -> int
    decreases name.len(),
{
    if name.len() <= 1 {
        -1
    } else if name[name.len() - 1] == DOT {
        name.len() - 1
    } else {
        last_dot(name.take(name.len() - 1))
    }
}

proof fn lemma_last_dot_prefix(name: Seq<u8>, i: int)
    requires
        0 <= i < name.len(),
        forall|j: int| i < j < name.len() ==> name[j] != DOT,
    ensures
        last_dot(name) == last_dot(name.take(i + 1)),
    decreases name.len() - i,
{
    if i + 1 == name.len() {
        assert(name.take(i + 1) =~= name);
    } else {
        assert(name.len() > 1);
        assert(name[name.len() - 1] != DOT);
        lemma_last_dot_prefix(name.take(name.len() - 1), i);
        assert(name.take(name.len() - 1).take(i + 1) =~= name.take(i + 1));
    }
}

/// Lower-cases one ASCII byte.
pub open spec fn lower_byte(c: u8) -> u8 {
    if 65 <= c && c <= 90 {
        (c + 32) as u8
    } else {
        c
    }
}

/// Lower-cases a byte string, ASCII-wise.
pub open spec fn lower_seq(s: Seq<u8>) -> Seq<u8> {
    s.map_values(|c: u8| lower_byte(c))
}

/// The always-relocated extension `mp4` (video container).
pub open spec fn mp4_ext() -> Seq<u8> {
    seq!['m' as u8, 'p' as u8, '4' as u8]
}

/// The always-relocated extension `dng` (raw-image container).
pub open spec fn dng_ext() -> Seq<u8> {
    seq!['d' as u8, 'n' as u8, 'g' as u8]
}

/// The move-candidate policy. A file name matches when it is not hidden and
/// its lower-cased extension is a video or raw-image container, or a generic
/// image extension owned by a directory that is *not* image-capable (camera
/// directories are the canonical home for images and keep them).
pub open spec fn matches_spec(name: Seq<u8>, allow_img: bool, img_exts: Seq<Seq<u8>>) -> bool {
    &&& !is_hidden_spec(name)
    &&& last_dot(name) >= 1
    &&& {
        let ext = lower_seq(name.skip(last_dot(name) + 1));
        ||| ext == mp4_ext()
        ||| ext == dng_ext()
        ||| (!allow_img && img_exts.contains(ext))
    }
}

/// Finds the extension dot: the last dot of `name` at a position past the
/// first byte.
pub fn find_last_dot(name: &[u8]) -> (r: Option<usize>)
    ensures
        match r {
            Some(k) => 1 <= k < name@.len() && name@[k as int] == DOT && last_dot(name@) == k,
            None => last_dot(name@) == -1,
        },
{
    let mut i: usize = name.len();
    while i > 1
        invariant
            i <= name.len(),
            forall|j: int| i <= j < name@.len() ==> name@[j] != DOT,
        decreases i,
    {
        i -= 1;
        if name[i] == DOT {
            proof {
                lemma_last_dot_prefix(name@, i as int);
                assert(name@.take(i + 1).len() == i + 1);
                assert(name@.take(i + 1)[i as int] == DOT);
            }
            return Some(i);
        }
    }
    proof {
        if name@.len() > 1 {
            lemma_last_dot_prefix(name@, 0);
            assert(name@.take(1).len() <= 1);
        }
    }
    None
}

/// Lower-cases one ASCII byte.
pub fn to_lower(c: u8) -> (r: u8)
    ensures
        r == lower_byte(c),
{
    if c >= 65 && c <= 90 {
        c + 32
    } else {
        c
    }
}

/// The extension policy, an immutable configuration set built once at
/// startup: the generic image extensions that are relocated only out of
/// non-camera directories.
pub struct Policy {
    pub img_exts: Vec<Vec<u8>>,
}

impl Policy {
    /// The configured set of image extensions, as byte strings.
    pub open spec fn exts(&self) -> Seq<Seq<u8>> {
        self.img_exts@.map_values(|v: Vec<u8>| v@)
    }

    /// Builds the default image-extension set.
    pub fn new() -> (p: Policy)
        ensures
            p.exts() == default_img_exts(),
    {
        let mut img_exts: Vec<Vec<u8>> = Vec::new();
        img_exts.push(vec!['j' as u8, 'p' as u8, 'g' as u8]);
        img_exts.push(vec!['j' as u8, 'p' as u8, 'e' as u8, 'g' as u8]);
        img_exts.push(vec!['p' as u8, 'n' as u8, 'g' as u8]);
        img_exts.push(vec!['g' as u8, 'i' as u8, 'f' as u8]);
        img_exts.push(vec!['w' as u8, 'e' as u8, 'b' as u8, 'p' as u8]);
        img_exts.push(vec!['b' as u8, 'm' as u8, 'p' as u8]);
        img_exts.push(vec!['t' as u8, 'i' as u8, 'f' as u8]);
        img_exts.push(vec!['t' as u8, 'i' as u8, 'f' as u8, 'f' as u8]);
        img_exts.push(vec!['j' as u8, 'x' as u8, 'l' as u8]);
        img_exts.push(vec!['a' as u8, 'p' as u8, 'n' as u8, 'g' as u8]);
        let p = Policy { img_exts };
        proof {
            assert(p.exts() =~~= default_img_exts());
        }
        p
    }
}

/// The default image-extension set.
pub open spec fn default_img_exts() -> Seq<Seq<u8>> {
    seq![
        seq!['j' as u8, 'p' as u8, 'g' as u8],
        seq!['j' as u8, 'p' as u8, 'e' as u8, 'g' as u8],
        seq!['p' as u8, 'n' as u8, 'g' as u8],
        seq!['g' as u8, 'i' as u8, 'f' as u8],
        seq!['w' as u8, 'e' as u8, 'b' as u8, 'p' as u8],
        seq!['b' as u8, 'm' as u8, 'p' as u8],
        seq!['t' as u8, 'i' as u8, 'f' as u8],
        seq!['t' as u8, 'i' as u8, 'f' as u8, 'f' as u8],
        seq!['j' as u8, 'x' as u8, 'l' as u8],
        seq!['a' as u8, 'p' as u8, 'n' as u8, 'g' as u8],
    ]
}

/// Decides whether a file name is a move candidate, given the eligibility of
/// its owning directory and the configured image-extension set.
pub fn name_matches(name: &[u8], allow_img: bool, policy: &Policy) -> (r: bool)
    ensures
        r == matches_spec(name@, allow_img, policy.exts()),
{
    if is_hidden(name) {
        return false;
    }
    let k = match find_last_dot(name) {
        Some(k) => k,
        None => {
            return false;
        },
    };
    let n: usize = name.len();
    assert(k < n);
    let mut ext: Vec<u8> = Vec::new();
    let mut j: usize = k + 1;
    while j < name.len()
        invariant
            k + 1 <= j <= name@.len(),
            ext@.len() == j - (k + 1),
            forall|t: int| 0 <= t < ext@.len() ==> ext@[t] == lower_byte(name@[k + 1 + t]),
        decreases name.len() - j,
    {
        ext.push(to_lower(name[j]));
        j += 1;
    }
    proof {
        assert(ext@ =~= lower_seq(name@.skip(k + 1)));
    }
    let mp4: Vec<u8> = vec!['m' as u8, 'p' as u8, '4' as u8];
    let dng: Vec<u8> = vec!['d' as u8, 'n' as u8, 'g' as u8];
    proof {
        assert(mp4@ =~= mp4_ext());
        assert(dng@ =~= dng_ext());
    }
    if bytes_eq(ext.as_slice(), mp4.as_slice()) || bytes_eq(ext.as_slice(), dng.as_slice()) {
        return true;
    }
    if allow_img {
        return false;
    }
    let mut t: usize = 0;
    let mut found = false;
    while t < policy.img_exts.len()
        invariant
            t <= policy.img_exts@.len(),
            found ==> policy.exts().contains(ext@),
            !found ==> forall|u: int| 0 <= u < t ==> policy.exts()[u] != ext@,
        decreases policy.img_exts.len() - t,
    {
        if bytes_eq(ext.as_slice(), policy.img_exts[t].as_slice()) {
            assert(policy.exts()[t as int] == ext@);
            found = true;
        }
        t += 1;
    }
    proof {
        if !found {
            assert(!policy.exts().contains(ext@));
        }
    }
    found
}

/// Hidden entries are never move candidates, whatever their extension and
/// whatever the configured extension set.
pub proof fn lemma_hidden_never_matches(name: Seq<u8>, allow_img: bool, img_exts: Seq<Seq<u8>>)
    ensures
        is_hidden_spec(name) ==> !matches_spec(name, allow_img, img_exts),
{
}

} // verus!
