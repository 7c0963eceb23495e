//! Archive entry paths are untrusted, slash-separated byte strings. This
//! module normalizes them: empty and `.` segments are dropped, `..` pops the
//! previous segment, and a path is rejected outright when it is absolute or
//! when a `..` would climb above the extraction root.

use vstd::prelude::*;

verus! {

/// The segment `.`.
pub open spec fn dot_seg() -> Seq<u8> {
    seq![46u8]
}

/// The segment `..`.
pub open spec fn dotdot_seg() -> Seq<u8> {
    seq![46u8, 46u8]
}

/// The view of a vector of segments.
pub open spec fn segs_view(segs: Seq<Vec<u8>>) -> Seq<Seq<u8>> {
    segs.map_values(|s: Vec<u8>| s@)
}

/// Fold one finished segment into the normalized stack: empty and `.`
/// segments vanish, `..` pops (or fails on an empty stack, which means the
/// path climbs above the root), anything else is kept.
pub open spec fn flush_seg(stack: Seq<Seq<u8>>, cur: Seq<u8>) -> Option<Seq<Seq<u8>>> {
    if cur.len() == 0 || cur == dot_seg() {
        Some(stack)
    } else if cur == dotdot_seg() {
        if stack.len() == 0 {
            None
        } else {
            Some(stack.drop_last())
        }
    } else {
        Some(stack.push(cur))
    }
}

/// Normalize the remaining bytes `rest`, given the already-normalized
/// segments `stack` and the bytes `cur` of the segment being read.
pub open spec fn norm_from(stack: Seq<Seq<u8>>, cur: Seq<u8>, rest: Seq<u8>) -> Option<
    Seq<Seq<u8>>,
>
    decreases rest.len(),
{
    if rest.len() == 0 {
        flush_seg(stack, cur)
    } else if rest[0] == 47u8 {
        match flush_seg(stack, cur) {
            None => None,
            Some(s) => norm_from(s, Seq::empty(), rest.drop_first()),
        }
    } else {
        norm_from(stack, cur.push(rest[0]), rest.drop_first())
    }
}

/// Normalize an untrusted archive path into segments relative to the
/// extraction root. `None` means the path is unsafe: it is absolute, or a
/// `..` segment resolves outside the root.
pub open spec fn normalize_path(name: Seq<u8>) -> Option<Seq<Seq<u8>>> {
    if name.len() > 0 && name[0] == 47u8 {
        None
    } else {
        norm_from(Seq::empty(), Seq::empty(), name)
    }
}

/// A normalized path relative to the extraction root: the segments contain
/// no separator and none of them is empty, `.` or `..`.
pub struct RelPath {
    pub segs: Vec<Vec<u8>>,
}

impl View for RelPath {
    type V = Seq<Seq<u8>>;

    open spec fn view(&self) -> Seq<Seq<u8>> {
        segs_view(self.segs@)
    }
}

/// Normalize an untrusted archive path, rejecting absolute paths and paths
/// that resolve outside the root.
pub fn normalize_name(name: &[u8]) -> (r: Option<RelPath>)
    ensures
        r is Some <==> normalize_path(name@) is Some,
        r matches Some(p) ==> Some(p@) == normalize_path(name@),
{
    if name.len() > 0 && name[0] == 47 {
        return None;
    }
    let mut stack: Vec<Vec<u8>> = Vec::new();
    let mut cur: Vec<u8> = Vec::new();
    let mut i: usize = 0;
    proof {
        assert(name@.skip(0) =~= name@);
        assert(segs_view(stack@) =~= Seq::<Seq<u8>>::empty());
    }
    while i < name.len()
        invariant
            i <= name@.len(),
            norm_from(segs_view(stack@), cur@, name@.skip(i as int)) == normalize_path(name@),
        decreases name@.len() - i,
    {
        let ghost pre_stack = segs_view(stack@);
        let ghost pre_cur = cur@;
        let ghost rest = name@.skip(i as int);
        let b = name[i];
        proof {
            assert(rest.len() > 0);
            assert(rest[0] == name@[i as int]);
            assert(rest.drop_first() =~= name@.skip(i as int + 1));
        }
        if b == 47 {
            if cur.len() == 0 {
                proof {
                    assert(pre_cur =~= Seq::<u8>::empty());
                    assert(flush_seg(pre_stack, pre_cur) == Some(pre_stack));
                }
            } else if cur.len() == 1 && cur[0] == 46 {
                proof {
                    assert(pre_cur =~= dot_seg());
                    assert(flush_seg(pre_stack, pre_cur) == Some(pre_stack));
                }
                cur = Vec::new();
            } else if cur.len() == 2 && cur[0] == 46 && cur[1] == 46 {
                proof {
                    assert(pre_cur =~= dotdot_seg());
                }
                if stack.len() == 0 {
                    proof {
                        assert(pre_stack.len() == 0);
                        assert(flush_seg(pre_stack, pre_cur) is None);
                        assert(normalize_path(name@) is None);
                    }
                    return None;
                }
                let _ = stack.pop();
                cur = Vec::new();
                proof {
                    assert(segs_view(stack@) =~= pre_stack.drop_last());
                }
            } else {
                proof {
                    assert(pre_cur.len() != 0);
                    assert(pre_cur != dot_seg());
                    assert(pre_cur != dotdot_seg());
                    assert(flush_seg(pre_stack, pre_cur) == Some(pre_stack.push(pre_cur)));
                }
                stack.push(cur);
                cur = Vec::new();
                proof {
                    assert(segs_view(stack@) =~= pre_stack.push(pre_cur));
                }
            }
        } else {
            cur.push(b);
        }
        i = i + 1;
    }
    proof {
        assert(name@.skip(i as int) =~= Seq::<u8>::empty());
    }
    let ghost pre_stack = segs_view(stack@);
    let ghost pre_cur = cur@;
    if cur.len() == 0 {
        proof {
            assert(flush_seg(pre_stack, pre_cur) == Some(pre_stack));
        }
    } else if cur.len() == 1 && cur[0] == 46 {
        proof {
            assert(pre_cur =~= dot_seg());
            assert(flush_seg(pre_stack, pre_cur) == Some(pre_stack));
        }
    } else if cur.len() == 2 && cur[0] == 46 && cur[1] == 46 {
        proof {
            assert(pre_cur =~= dotdot_seg());
        }
        if stack.len() == 0 {
            proof {
                assert(pre_stack.len() == 0);
                assert(normalize_path(name@) is None);
            }
            return None;
        }
        let _ = stack.pop();
        proof {
            assert(segs_view(stack@) =~= pre_stack.drop_last());
        }
    } else {
        proof {
            assert(pre_cur.len() != 0);
            assert(pre_cur != dot_seg());
            assert(pre_cur != dotdot_seg());
        }
        stack.push(cur);
        proof {
            assert(segs_view(stack@) =~= pre_stack.push(pre_cur));
        }
    }
    let r = RelPath { segs: stack };
    Some(r)
}

} // verus!
