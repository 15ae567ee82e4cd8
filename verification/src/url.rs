//! Resolution of redirect targets against a base URL. Pure string logic.

use vstd::prelude::*;
use crate::text::{find_from, find_str, has_prefix, occurs_at, rfind_char, rfind_char_before, starts_with};

verus! {

broadcast use vstd::seq::group_seq_axioms;

/// Where a redirect `Location` value leads, given the URL it came from.
///
/// - a full URL (`http://` or `https://` scheme) stands as it is;
/// - an absolute path replaces the whole path of the base URL;
/// - anything else is taken relative to the directory of the base URL
///   (its text up to the last `/`).
pub open spec fn resolve_spec(base: Seq<char>, loc: Seq<char>) -> Seq<char> {
    if has_prefix(loc, "http://"@) || has_prefix(loc, "https://"@) {
        loc
    } else if loc.len() > 0 && loc[0] == '/' {
        match find_from(base, "://"@, 0) {
            Some(i) => match find_from(base, "/"@, (i + 3) as nat) {
                Some(p) => base.take(p) + loc,
                None => base + loc,
            },
            None => loc,
        }
    } else {
        match rfind_char_before(base, '/', base.len()) {
            Some(ls) => base.take(ls) + seq!['/'] + loc,
            None => loc,
        }
    }
}

/// Resolves a redirect target (which may be relative) against a base URL.
pub fn resolve_redirect(base_url: &str, location: &str) -> (r: String)
    ensures
        r@ == resolve_spec(base_url@, location@),
{
    if starts_with(location, "http://") || starts_with(location, "https://") {
        return location.to_owned();
    }
    let nloc = location.unicode_len();
    if nloc > 0 && location.get_char(0) == '/' {
        let nbase = base_url.unicode_len();
        match find_str(base_url, "://") {
            Some(i) => {
                proof {
                    reveal_strlit("://");
                    crate::text::lemma_find_from_some(base_url@, "://"@, 0, i as int);
                    assert(i + 3 <= nbase);
                }
                match find_slash_from(base_url, i + 3) {
                    Some(p) => {
                        proof {
                            reveal_strlit("/");
                            crate::text::lemma_find_from_some(
                                base_url@,
                                "/"@,
                                (i + 3) as nat,
                                p as int,
                            );
                            assert(p < base_url@.len());
                        }
                        let mut out = base_url.substring_char(0, p).to_owned();
                        proof {
                            assert(base_url@.take(p as int) =~= base_url@.subrange(0, p as int));
                        }
                        out.append(location);
                        out
                    },
                    None => {
                        let mut out = base_url.to_owned();
                        out.append(location);
                        out
                    },
                }
            },
            None => location.to_owned(),
        }
    } else {
        match rfind_char(base_url, '/') {
            Some(ls) => {
                proof {
                    crate::text::lemma_rfind_char_some(base_url@, '/', base_url@.len(), ls as int);
                }
                let mut out = base_url.substring_char(0, ls).to_owned();
                proof {
                    assert(base_url@.take(ls as int) =~= base_url@.subrange(0, ls as int));
                    assert(base_url@.take(ls as int) + seq!['/'] + location@ =~= base_url@.take(
                        ls as int,
                    ).push('/') + location@);
                }
                crate::text::push_char(&mut out, '/');
                out.append(location);
                out
            },
            None => location.to_owned(),
        }
    }
}

/// The index of the first `/` in `s` at or after `from`.
fn find_slash_from(s: &str, from: usize) -> (r: Option<usize>)
    requires
        from <= s@.len(),
    ensures
        match r {
            Some(i) => find_from(s@, "/"@, from as nat) == Some(i as int),
            None => find_from(s@, "/"@, from as nat) is None,
        },
{
    let ghost p: Seq<char> = "/"@;
    proof {
        reveal_strlit("/");
        assert(p =~= seq!['/']);
    }
    let n = s.unicode_len();
    let mut at: usize = from;
    while at < n
        invariant
            n == s@.len(),
            from <= at <= n,
            p == "/"@,
            p.len() == 1,
            p[0] == '/',
            find_from(s@, p, from as nat) == find_from(s@, p, at as nat),
        decreases n - at,
    {
        if s.get_char(at) == '/' {
            proof {
                assert(s@.subrange(at as int, at + 1) =~= p);
            }
            return Some(at);
        }
        proof {
            if occurs_at(s@, p, at as int) {
                assert(s@.subrange(at as int, at + 1)[0] == s@[at as int]);
            }
        }
        at = at + 1;
    }
    None
}

} // verus!
