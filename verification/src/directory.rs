//! One watched directory: its relative path, owning inode, eligibility
//! flag, and the lazily-materialized destination flag.

use vstd::prelude::*;

use crate::policy::{is_img_dir, is_img_dir_spec, name_matches, matches_spec, Policy, DOT, SLASH};

verus! {

/// The relative path of a watch root itself: a single dot.
pub open spec fn dot_path() -> Seq<u8> {
    seq![DOT]
}

/// A legal relative path: non-empty and not absolute.
pub open spec fn valid_rel_path(p: Seq<u8>) -> bool {
    p.len() > 0 && p[0] != SLASH
}

/// Joins a file name under a relative directory path, omitting the leading
/// `./` when the directory is the watch root itself.
pub open spec fn join_spec(dir: Seq<u8>, name: Seq<u8>) -> Seq<u8> {
    if dir == dot_path() {
        name
    } else {
        dir + seq![SLASH] + name
    }
}

/// Joins a relative path under a root path; the root itself when the
/// relative path is the single dot.
pub open spec fn join_under_spec(root: Seq<u8>, rel: Seq<u8>) -> Seq<u8> {
    if rel == dot_path() {
        root
    } else {
        root + seq![SLASH] + rel
    }
}

/// Appends all of `s` to `v`.
pub(crate) fn push_all(v: &mut Vec<u8>, s: &[u8])
    ensures
        final(v)@ == old(v)@ + s@,
{
    let mut i: usize = 0;
    while i < s.len()
        invariant
            i <= s@.len(),
            v@ =~= old(v)@ + s@.take(i as int),
        decreases s.len() - i,
    {
        v.push(s[i]);
        i += 1;
    }
    proof {
        assert(v@ =~= old(v)@ + s@);
    }
}

/// One subtree root currently under observation.
pub struct Directory {
    /// Path relative to the watch root; `.` for the root itself.
    pub path: Vec<u8>,
    /// Inode of the underlying directory; identifies it across the process
    /// lifetime.
    pub ino: u64,
    /// Whether this directory is image-capable, fixed at creation from the
    /// path.
    pub allow_img: bool,
    /// Set exactly once, when the mirrored destination directory is first
    /// materialized.
    pub dst_created: bool,
}

impl Directory {
    /// Well-formedness: the path is a legal relative path and the
    /// eligibility flag agrees with it.
    pub open spec fn wf(&self) -> bool {
        valid_rel_path(self.path@) && self.allow_img == is_img_dir_spec(self.path@)
    }

    /// Creates an entry for a newly discovered directory; the destination
    /// mirror starts unmaterialized.
    pub fn new(path: Vec<u8>, ino: u64) -> (d: Directory)
        requires
            valid_rel_path(path@),
        ensures
            d.wf(),
            d.path@ == path@,
            d.ino == ino,
            d.allow_img == is_img_dir_spec(path@),
            !d.dst_created,
    {
        let allow_img = is_img_dir(path.as_slice());
        Directory { path, ino, allow_img, dst_created: false }
    }

    /// The relative path of this directory.
    pub fn path(&self) -> (r: &Vec<u8>)
        ensures
            r@ == self.path@,
    {
        &self.path
    }

    /// Whether this directory is the watch root itself.
    fn is_root(&self) -> (r: bool)
        ensures
            r == (self.path@ == dot_path()),
    {
        let r = self.path.len() == 1 && self.path[0] == DOT;
        proof {
            if r {
                assert(self.path@ =~= dot_path());
            }
        }
        r
    }

    /// Joins a file name under this directory's relative path.
    pub fn join(&self, name: &[u8]) -> (r: Vec<u8>)
        ensures
            r@ == join_spec(self.path@, name@),
    {
        if self.is_root() {
            let mut r: Vec<u8> = Vec::new();
            push_all(&mut r, name);
            proof {
                assert(r@ =~= name@);
            }
            r
        } else {
            let mut r: Vec<u8> = Vec::new();
            push_all(&mut r, self.path.as_slice());
            r.push(SLASH);
            push_all(&mut r, name);
            proof {
                assert(r@ =~= self.path@ + seq![SLASH] + name@);
            }
            r
        }
    }

    /// Joins an owned file name under this directory's relative path.
    pub fn join_owned(&self, name: Vec<u8>) -> (r: Vec<u8>)
        ensures
            r@ == join_spec(self.path@, name@),
    {
        if self.is_root() {
            name
        } else {
            let mut r: Vec<u8> = Vec::new();
            push_all(&mut r, self.path.as_slice());
            r.push(SLASH);
            push_all(&mut r, name.as_slice());
            proof {
                assert(r@ =~= self.path@ + seq![SLASH] + name@);
            }
            r
        }
    }

    /// The mirrored destination directory for this entry, under `root`.
    pub fn dst_path(&self, root: &[u8]) -> (r: Vec<u8>)
        ensures
            r@ == join_under_spec(root@, self.path@),
    {
        if self.is_root() {
            let mut r: Vec<u8> = Vec::new();
            push_all(&mut r, root);
            proof {
                assert(r@ =~= root@);
            }
            r
        } else {
            let mut r: Vec<u8> = Vec::new();
            push_all(&mut r, root);
            r.push(SLASH);
            push_all(&mut r, self.path.as_slice());
            proof {
                assert(r@ =~= root@ + seq![SLASH] + self.path@);
            }
            r
        }
    }

    /// The mirrored destination directory under `root`, marking it
    /// materialized. The second result says whether the caller must create
    /// it on disk now: true exactly on the first use.
    pub fn dst(&mut self, root: &[u8]) -> (r: (Vec<u8>, bool))
        ensures
            r.0@ == join_under_spec(root@, old(self).path@),
            r.1 == !old(self).dst_created,
            final(self).path@ == old(self).path@,
            final(self).ino == old(self).ino,
            final(self).allow_img == old(self).allow_img,
            final(self).dst_created,
    {
        let created = self.dst_created;
        self.dst_created = true;
        (self.dst_path(root), !created)
    }

    /// Decides whether a file in this directory is a move candidate.
    pub fn filter_name(&self, name: &[u8], policy: &Policy) -> (r: bool)
        ensures
            r == matches_spec(name@, self.allow_img, policy.exts()),
    {
        name_matches(name, self.allow_img, policy)
    }
}

} // verus!
