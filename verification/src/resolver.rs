//! Maps a changed local path to the owning sync pair and its remote path.
//!
//! Matching is path-segment-aware: a pair whose local root is `/data` owns
//! `/data/x.txt` but not `/datax`. Among all active pairs owning a path the
//! one with the longest local root wins, so nested roots resolve to the
//! most specific pair. A pair in `Pending`, `Paused` or `Error` dispatches
//! no new transfers; transfers already queued or in flight when a pair
//! leaves `Active` still complete, and a success among them clears a prior
//! error. The remote path is the pair's remote prefix, with trailing
//! separators trimmed, joined by one separator to the path's suffix below
//! the matched root.

use vstd::prelude::*;
use crate::models::{PairStatus, SyncPair};

verus! {

/// `prefix` owns `path` as a whole path segment: it is a plain prefix and
/// the match ends at a segment boundary.
pub open spec fn is_segment_prefix(prefix: Seq<char>, path: Seq<char>) -> bool {
    &&& prefix.len() <= path.len()
    &&& path.subrange(0, prefix.len() as int) == prefix
    &&& (prefix.len() == path.len()
        || path[prefix.len() as int] == '/'
        || (prefix.len() > 0 && prefix[prefix.len() - 1] == '/'))
}

/// `remote` with every trailing separator removed.
pub open spec fn trim_trailing_slashes(s: Seq<char>) -> Seq<char>
    decreases s.len(),
{
    if s.len() > 0 && s.last() == '/' {
        trim_trailing_slashes(s.drop_last())
    } else {
        s
    }
}

/// `path` with the matched `prefix` stripped and one leading separator
/// removed.
pub open spec fn rel_suffix(prefix: Seq<char>, path: Seq<char>) -> Seq<char> {
    let rest = path.subrange(prefix.len() as int, path.len() as int);
    if rest.len() > 0 && rest[0] == '/' {
        rest.subrange(1, rest.len() as int)
    } else {
        rest
    }
}

/// The remote destination for `path` under a pair rooted at `prefix` whose
/// remote namespace starts at `remote`.
pub open spec fn remote_target(remote: Seq<char>, prefix: Seq<char>, path: Seq<char>) -> Seq<
    char,
> {
    trim_trailing_slashes(remote) + seq!['/'] + rel_suffix(prefix, path)
}

/// An active pair whose local root owns `path`. Only active pairs dispatch
/// new transfers.
pub open spec fn pair_matches(p: SyncPair, path: Seq<char>) -> bool {
    p.status == PairStatus::Active && is_segment_prefix(p.local_path@, path)
}

/// Trimming stops exactly at the last non-separator character.
proof fn lemma_trim_is_prefix(s: Seq<char>, end: int)
    requires
        0 <= end <= s.len(),
        forall|j: int| end <= j < s.len() ==> s[j] == '/',
        end > 0 ==> s[end - 1] != '/',
    ensures
        trim_trailing_slashes(s) == s.subrange(0, end),
    decreases s.len(),
{
    if s.len() > 0 && s.last() == '/' {
        assert(end < s.len());
        lemma_trim_is_prefix(s.drop_last(), end);
        assert(s.drop_last().subrange(0, end) =~= s.subrange(0, end));
    } else {
        assert(end == s.len());
        assert(s.subrange(0, end) =~= s);
    }
}

/// Executable segment-aware prefix test.
#[verifier::loop_isolation(false)]
pub fn segment_prefix(prefix: &str, path: &str) -> (r: bool)
    ensures
        r == is_segment_prefix(prefix@, path@),
{
    let np = prefix.unicode_len();
    let n = path.unicode_len();
    if np > n {
        return false;
    }
    let mut i: usize = 0;
    while i < np
        invariant
            i <= np,
            forall|j: int| 0 <= j < i ==> path@[j] == prefix@[j],
        decreases np - i,
    {
        if prefix.get_char(i) != path.get_char(i) {
            proof {
                assert(path@.subrange(0, np as int)[i as int] != prefix@[i as int]);
            }
            return false;
        }
        i = i + 1;
    }
    proof {
        assert(path@.subrange(0, np as int) =~= prefix@);
    }
    if np == n {
        return true;
    }
    if path.get_char(np) == '/' {
        return true;
    }
    if np > 0 && prefix.get_char(np - 1) == '/' {
        return true;
    }
    false
}

/// Builds the remote destination for a path owned by a matched root.
#[verifier::loop_isolation(false)]
pub fn build_remote_path(remote: &str, prefix: &str, path: &str) -> (r: String)
    requires
        is_segment_prefix(prefix@, path@),
    ensures
        r@ == remote_target(remote@, prefix@, path@),
{
    let mut end = remote.unicode_len();
    while end > 0 && remote.get_char(end - 1) == '/'
        invariant
            end <= remote@.len(),
            forall|j: int| end <= j < remote@.len() ==> remote@[j] == '/',
        decreases end,
    {
        end = end - 1;
    }
    proof {
        lemma_trim_is_prefix(remote@, end as int);
    }
    let base = remote.substring_char(0, end);
    let mut out = String::from_str(base);
    out.append("/");
    let np = prefix.unicode_len();
    let n = path.unicode_len();
    let start = if np < n && path.get_char(np) == '/' {
        np + 1
    } else {
        np
    };
    let suffix = path.substring_char(start, n);
    out.append(suffix);
    proof {
        reveal_strlit("/");
        assert(("/")@ =~= seq!['/']);
        assert(suffix@ =~= rel_suffix(prefix@, path@));
        assert(out@ =~= remote_target(remote@, prefix@, path@));
    }
    out
}

/// Resolves a changed path to the owning sync pair, if any.
///
/// Returns the index of the most specific matching active pair (the longest
/// owning local root) together with the computed remote destination, or
/// `None` when no active pair owns the path — an expected, frequent outcome
/// for unrelated filesystem activity, not an error.
#[verifier::loop_isolation(false)]
pub fn resolve(pairs: &Vec<SyncPair>, path: &str) -> (r: Option<(usize, String)>)
    ensures
        match r {
            Some(t) => {
                &&& (t.0 as int) < pairs@.len()
                &&& pair_matches(pairs@[t.0 as int], path@)
                &&& forall|j: int|
                    0 <= j < pairs@.len() && pair_matches(pairs@[j], path@)
                        ==> pairs@[j].local_path@.len()
                        <= pairs@[t.0 as int].local_path@.len()
                &&& t.1@ == remote_target(
                    pairs@[t.0 as int].remote_path@,
                    pairs@[t.0 as int].local_path@,
                    path@,
                )
            },
            None => forall|j: int|
                0 <= j < pairs@.len() ==> !pair_matches(pairs@[j], path@),
        },
{
    let n = pairs.len();
    let mut best: Option<usize> = None;
    let mut best_len: usize = 0;
    let mut i: usize = 0;
    while i < n
        invariant
            i <= n,
            match best {
                Some(b) => {
                    &&& (b as int) < i
                    &&& pair_matches(pairs@[b as int], path@)
                    &&& best_len == pairs@[b as int].local_path@.len()
                    &&& forall|j: int|
                        0 <= j < i && pair_matches(pairs@[j], path@)
                            ==> pairs@[j].local_path@.len() <= best_len
                },
                None => forall|j: int| 0 <= j < i ==> !pair_matches(pairs@[j], path@),
            },
        decreases n - i,
    {
        let p = &pairs[i];
        if matches!(p.status, PairStatus::Active) && segment_prefix(p.local_path.as_str(), path)
        {
            let plen = p.local_path.as_str().unicode_len();
            match best {
                Some(_) => {
                    if plen > best_len {
                        best = Some(i);
                        best_len = plen;
                    }
                },
                None => {
                    best = Some(i);
                    best_len = plen;
                },
            }
        }
        i = i + 1;
    }
    match best {
        Some(b) => {
            let p = &pairs[b];
            let remote = build_remote_path(p.remote_path.as_str(), p.local_path.as_str(), path);
            Some((b, remote))
        },
        None => None,
    }
}

} // verus!
