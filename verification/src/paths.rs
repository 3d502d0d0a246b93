//! Path strings.
//!
//! Paths are plain strings with `/` as the separator. These helpers extract a
//! path's file name and parent directory, strip a root prefix, and join path
//! segments — everything the resolver and the session need to mirror an input
//! tree under an output directory.

use vstd::prelude::*;

verus! {

/// `i` is the position of the last `/` of `s`.
pub open spec fn is_last_slash(s: Seq<char>, i: int) -> bool {
    &&& 0 <= i < s.len()
    &&& s[i] == '/'
    &&& forall|j: int| i < j < s.len() ==> s[j] != '/'
}

/// `s` contains a `/`.
pub open spec fn has_slash(s: Seq<char>) -> bool {
    exists|i: int| is_last_slash(s, i)
}

/// Position of the last `/` of `s`.
pub open spec fn last_slash(s: Seq<char>) -> int {
    choose|i: int| is_last_slash(s, i)
}

/// Everything after the last `/`; the whole string when there is none.
pub open spec fn spec_file_name(s: Seq<char>) -> Seq<char> {
    if has_slash(s) {
        s.subrange(last_slash(s) + 1, s.len() as int)
    } else {
        s
    }
}

/// Everything before the last `/`; empty when there is none.
pub open spec fn spec_parent(s: Seq<char>) -> Seq<char> {
    if has_slash(s) {
        s.subrange(0, last_slash(s))
    } else {
        Seq::empty()
    }
}

/// `p` is a prefix of `s`.
pub open spec fn begins_with(s: Seq<char>, p: Seq<char>) -> bool {
    p.len() <= s.len() && s.subrange(0, p.len() as int) == p
}

/// `s` with the prefix `p`, and one separator right after it, removed;
/// `s` itself when `p` is no prefix of it.
pub open spec fn spec_strip_prefix(s: Seq<char>, p: Seq<char>) -> Seq<char> {
    if begins_with(s, p) {
        let rest = s.subrange(p.len() as int, s.len() as int);
        if rest.len() > 0 && rest[0] == '/' {
            rest.subrange(1, rest.len() as int)
        } else {
            rest
        }
    } else {
        s
    }
}

/// `a` and `b` joined with a single separator; an empty side contributes
/// nothing.
pub open spec fn spec_join(a: Seq<char>, b: Seq<char>) -> Seq<char> {
    if a.len() == 0 {
        b
    } else if b.len() == 0 {
        a
    } else if a[a.len() - 1] == '/' {
        a + b
    } else {
        a + seq!['/'] + b
    }
}

/// There is at most one last slash.
proof fn lemma_last_slash_unique(s: Seq<char>, i: int)
    requires
        is_last_slash(s, i),
    ensures
        has_slash(s),
        last_slash(s) == i,
{
    assert(has_slash(s));
    let i2 = last_slash(s);
    assert(is_last_slash(s, i2));
    if i2 < i {
        assert(s[i] != '/');
        assert(false);
    }
    if i < i2 {
        assert(s[i2] != '/');
        assert(false);
    }
}

/// Compares two strings character by character.
pub fn str_eq(a: &str, b: &str) -> (r: bool)
    ensures
        r == (a@ == b@),
{
    let na = a.unicode_len();
    let nb = b.unicode_len();
    if na != nb {
        return false;
    }
    let mut i: usize = 0;
    while i < na
        invariant
            0 <= i <= na,
            na == a@.len(),
            na == b@.len(),
            forall|j: int| 0 <= j < i ==> a@[j] == b@[j],
        decreases na - i,
    {
        if a.get_char(i) != b.get_char(i) {
            return false;
        }
        i += 1;
    }
    proof {
        assert(a@ =~= b@);
    }
    true
}

/// Everything after the last `/` of `path`; `path` itself when it holds none.
pub fn file_name<'a>(path: &'a str) -> (r: &'a str)
    ensures
        r@ == spec_file_name(path@),
{
    let n = path.unicode_len();
    let mut k: usize = n;
    while k > 0
        invariant
            0 <= k <= n,
            n == path@.len(),
            forall|j: int| k <= j < n ==> path@[j] != '/',
        decreases k,
    {
        if path.get_char(k - 1) == '/' {
            proof {
                lemma_last_slash_unique(path@, k - 1);
            }
            return path.substring_char(k, n);
        }
        k -= 1;
    }
    proof {
        assert(forall|i: int| !is_last_slash(path@, i));
        assert(!has_slash(path@));
    }
    path
}

/// Everything before the last `/` of `path`; empty when it holds none.
pub fn parent_of<'a>(path: &'a str) -> (r: &'a str)
    ensures
        r@ == spec_parent(path@),
{
    let n = path.unicode_len();
    let mut k: usize = n;
    while k > 0
        invariant
            0 <= k <= n,
            n == path@.len(),
            forall|j: int| k <= j < n ==> path@[j] != '/',
        decreases k,
    {
        if path.get_char(k - 1) == '/' {
            proof {
                lemma_last_slash_unique(path@, k - 1);
            }
            return path.substring_char(0, k - 1);
        }
        k -= 1;
    }
    proof {
        assert(forall|i: int| !is_last_slash(path@, i));
        assert(!has_slash(path@));
        reveal_strlit("");
        assert(""@ =~= Seq::<char>::empty());
    }
    ""
}

/// `path` with the prefix `root`, and one separator right after it, removed;
/// `path` itself when `root` is no prefix of it.
pub fn strip_prefix<'a>(path: &'a str, root: &str) -> (r: &'a str)
    ensures
        r@ == spec_strip_prefix(path@, root@),
{
    let n = path.unicode_len();
    let np = root.unicode_len();
    if np > n {
        proof {
            assert(!begins_with(path@, root@));
        }
        return path;
    }
    let mut i: usize = 0;
    while i < np
        invariant
            0 <= i <= np,
            np <= n,
            n == path@.len(),
            np == root@.len(),
            forall|j: int| 0 <= j < i ==> path@[j] == root@[j],
        decreases np - i,
    {
        if path.get_char(i) != root.get_char(i) {
            proof {
                assert(path@.subrange(0, np as int)[i as int] != root@[i as int]);
                assert(!begins_with(path@, root@));
            }
            return path;
        }
        i += 1;
    }
    proof {
        assert(path@.subrange(0, np as int) =~= root@);
        assert(begins_with(path@, root@));
    }
    if np < n && path.get_char(np) == '/' {
        let r = path.substring_char(np + 1, n);
        proof {
            let rest = path@.subrange(np as int, n as int);
            assert(rest[0] == path@[np as int]);
            assert(r@ =~= rest.subrange(1, rest.len() as int));
        }
        r
    } else {
        let r = path.substring_char(np, n);
        proof {
            let rest = path@.subrange(np as int, n as int);
            assert(r@ =~= rest);
            if rest.len() > 0 {
                assert(rest[0] == path@[np as int]);
            }
        }
        r
    }
}

/// Joins two path segments with a single separator.
pub fn path_join(a: &str, b: &str) -> (r: String)
    ensures
        r@ == spec_join(a@, b@),
{
    let na = a.unicode_len();
    let nb = b.unicode_len();
    if na == 0 {
        return b.to_owned();
    }
    if nb == 0 {
        return a.to_owned();
    }
    let mut out = a.to_owned();
    if a.get_char(na - 1) != '/' {
        out.append("/");
        proof {
            reveal_strlit("/");
            assert("/"@ =~= seq!['/']);
        }
    }
    out.append(b);
    out
}

} // verus!
