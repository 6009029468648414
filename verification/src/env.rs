//! The session state: an absolute working directory, modelled as the ordered
//! list of its path segments, plus session-scoped variables (reserved, unused
//! by every command).

use vstd::prelude::*;

verus! {

/// The text of an absolute path with the given segments, without the leading
/// slash of the root alone: empty for the root, `/a/b` for segments `a`, `b`.
pub open spec fn segs_text(p: Seq<Seq<char>>) -> Seq<char>
    decreases p.len(),
{
    if p.len() == 0 {
        Seq::empty()
    } else {
        segs_text(p.drop_last()) + seq!['/'] + p.last()
    }
}

/// The text a user sees for an absolute path: `/` for the root, else `/a/b`.
pub open spec fn path_text(p: Seq<Seq<char>>) -> Seq<char> {
    if p.len() == 0 {
        seq!['/']
    } else {
        segs_text(p)
    }
}

/// The text naming the entry `name` inside the directory with segments `p`.
pub open spec fn resolved_text(p: Seq<Seq<char>>, name: Seq<char>) -> Seq<char> {
    segs_text(p) + seq!['/'] + name
}

/// An absolute filesystem path, held as its segments in order; the empty
/// sequence of segments is the root `/`.
pub struct DirPath {
    segs: Vec<String>,
}

impl View for DirPath {
    type V = Seq<Seq<char>>;

    closed spec fn view(&self) -> Seq<Seq<char>> {
        self.segs.deep_view()
    }
}

impl DirPath {
    /// The root path, with no segments.
    pub fn root() -> (r: DirPath)
        ensures
            r@ == Seq::<Seq<char>>::empty(),
    {
        DirPath { segs: Vec::new() }
    }

    /// A path made of the given segments, in order.
    pub fn from_segments(segs: Vec<String>) -> (r: DirPath)
        ensures
            r@ == segs.deep_view(),
    {
        DirPath { segs }
    }

    /// Appends one segment at the end.
    pub fn push(&mut self, seg: String)
        ensures
            final(self)@ == old(self)@.push(seg@),
    {
        self.segs.push(seg);
        proof {
            assert(self@ =~= old(self)@.push(seg@));
        }
    }

    /// Drops the last segment; at the root there is nothing to drop and the
    /// path stays the root.
    pub fn pop(&mut self)
        ensures
            old(self)@.len() == 0 ==> final(self)@ == old(self)@,
            old(self)@.len() > 0 ==> final(self)@ == old(self)@.drop_last(),
    {
        if self.segs.len() > 0 {
            let _ = self.segs.pop();
            proof {
                assert(self@ =~= old(self)@.drop_last());
            }
        }
    }

    /// The number of segments.
    pub fn depth(&self) -> (n: usize)
        ensures
            n == self@.len(),
    {
        self.segs.len()
    }

    /// The text of the first `n` segments, each behind a `/`.
    fn prefix_string(&self, n: usize) -> (r: String)
        requires
            n <= self@.len(),
        ensures
            r@ == segs_text(self@.take(n as int)),
    {
        let mut out = String::new();
        let mut i: usize = 0;
        while i < n
            invariant
                i <= n <= self@.len(),
                n <= self.segs.len(),
                out@ == segs_text(self@.take(i as int)),
            decreases n - i,
        {
            out.append("/");
            out.append(self.segs[i].as_str());
            proof {
                let p = self@;
                assert(p.take(i + 1).drop_last() =~= p.take(i as int));
                assert(p.take(i + 1).last() == p[i as int]);
                reveal_strlit("/");
                assert(out@ =~= segs_text(p.take(i + 1)));
            }
            i = i + 1;
        }
        out
    }

    /// The text of this path: `/` for the root, else the segments each behind
    /// a `/`.
    pub fn display(&self) -> (r: String)
        ensures
            r@ == path_text(self@),
    {
        if self.segs.len() == 0 {
            let mut out = String::new();
            out.append("/");
            proof {
                reveal_strlit("/");
                assert(out@ =~= seq!['/']);
            }
            out
        } else {
            proof {
                assert(self@.take(self@.len() as int) =~= self@);
            }
            self.prefix_string(self.segs.len())
        }
    }

    /// The text of the directory one level up: the path without its last
    /// segment, or the root for the root itself.
    pub fn display_parent(&self) -> (r: String)
        ensures
            self@.len() == 0 ==> r@ == path_text(self@),
            self@.len() > 0 ==> r@ == path_text(self@.drop_last()),
    {
        if self.segs.len() <= 1 {
            let mut out = String::new();
            out.append("/");
            proof {
                reveal_strlit("/");
                assert(out@ =~= seq!['/']);
                if self@.len() > 0 {
                    assert(self@.drop_last() =~= self@.take(self@.len() - 1));
                }
            }
            out
        } else {
            proof {
                assert(self@.drop_last() =~= self@.take(self@.len() - 1));
            }
            self.prefix_string(self.segs.len() - 1)
        }
    }

    /// The text of the entry `name` inside this directory: the path's
    /// segments, then `/`, then the name, the name treated as one segment.
    pub fn resolve(&self, name: &str) -> (r: String)
        ensures
            r@ == resolved_text(self@, name@),
    {
        proof {
            assert(self@.take(self@.len() as int) =~= self@);
        }
        let mut out = self.prefix_string(self.segs.len());
        out.append("/");
        out.append(name);
        proof {
            reveal_strlit("/");
            assert(out@ =~= resolved_text(self@, name@));
        }
        out
    }
}

/// The session: the current working directory and the session variables.
pub struct Env {
    pub dirpath: DirPath,
    pub variables: Vec<String>,
}

impl Env {
    /// A fresh session rooted at the given directory, with no variables.
    pub fn new(dirpath: DirPath) -> (e: Env)
        ensures
            e.dirpath@ == dirpath@,
            e.variables@ == Seq::<String>::empty(),
    {
        Env { dirpath, variables: vec![] }
    }
}

} // verus!
