//! The tree resolver: turns a raw repository tree response (the JSON text of
//! a recursive tree listing) into a flat list of (display path, download URL)
//! pairs, keeping only `blob` entries, in their original order.

use vstd::prelude::*;

use crate::errors::ToolError;
use crate::json::{
    skip_value, skip_value_x, str_body, str_body_x, two_str_members, two_str_members_x, ws_end,
    ws_end_x,
};

verus! {

/// The mathematical value of one tree entry: (path, node type).
pub type TreeEntryView = (Seq<char>, Seq<char>);

/// The node type naming a file.
pub open spec fn blob_tok() -> Seq<char> {
    seq!['b', 'l', 'o', 'b']
}

/// The key `path`, unquoted.
pub open spec fn path_key() -> Seq<char> {
    seq!['p', 'a', 't', 'h']
}

/// The key `type`, unquoted.
pub open spec fn type_key() -> Seq<char> {
    seq!['t', 'y', 'p', 'e']
}

/// The key `tree`, unquoted.
pub open spec fn tree_key() -> Seq<char> {
    seq!['t', 'r', 'e', 'e']
}

/// Reads one entry object beginning at `i` (at its `{`): an object whose
/// `path` and `type` members are strings, each present exactly once, in
/// either order, with any other members read past and dropped.
pub open spec fn parse_tree_entry(s: Seq<char>, i: int) -> Option<(TreeEntryView, int)> {
    if !(0 <= i && i < s.len() && s[i] == '{') {
        None
    } else {
        two_str_members(s, i + 1, path_key(), type_key(), None, None)
    }
}

/// Reads the elements of the `tree` array, entered just after `[` (with
/// `first` true) or just after a comma.
pub open spec fn parse_tree_elems(
    s: Seq<char>,
    i: int,
    acc: Seq<TreeEntryView>,
    first: bool,
) -> Option<(Seq<TreeEntryView>, int)>
    decreases s.len() - i,
{
    if !(0 <= i && i <= s.len()) {
        None
    } else {
        let j = ws_end(s, i);
        if !(i <= j && j < s.len()) {
            None
        } else if s[j] == ']' {
            if first {
                Some((acc, j + 1))
            } else {
                None
            }
        } else {
            match parse_tree_entry(s, j) {
                Some((en, k)) => {
                    if !(j < k && k <= s.len()) {
                        None
                    } else {
                        let m = ws_end(s, k);
                        if !(k <= m && m < s.len()) {
                            None
                        } else if s[m] == ',' {
                            parse_tree_elems(s, m + 1, acc.push(en), false)
                        } else if s[m] == ']' {
                            Some((acc.push(en), m + 1))
                        } else {
                            None
                        }
                    }
                },
                None => None,
            }
        }
    }
}

/// Reads the members of the response object, entered just after `{` or a
/// comma. The `tree` member must be an array of entry objects and must come
/// exactly once; all other members are read past and dropped.
pub open spec fn parse_top_members(
    s: Seq<char>,
    i: int,
    found: Option<Seq<TreeEntryView>>,
) -> Option<(Seq<TreeEntryView>, int)>
    decreases s.len() - i,
{
    if !(0 <= i && i <= s.len()) {
        None
    } else {
        let j = ws_end(s, i);
        if !(i <= j && j < s.len()) {
            None
        } else if s[j] != '"' {
            None
        } else {
            match str_body(s, j + 1, Seq::empty()) {
                Some((key, k)) => {
                    if !(j < k && k <= s.len()) {
                        None
                    } else {
                        let m = ws_end(s, k);
                        if !(k <= m && m < s.len() && s[m] == ':') {
                            None
                        } else {
                            let v = ws_end(s, m + 1);
                            if !(m < v && v < s.len()) {
                                None
                            } else if key == tree_key() {
                                if found is Some || s[v] != '[' {
                                    None
                                } else {
                                    match parse_tree_elems(s, v + 1, Seq::empty(), true) {
                                        Some((entries, w)) => {
                                            if !(v < w && w <= s.len()) {
                                                None
                                            } else {
                                                let q = ws_end(s, w);
                                                if !(w <= q && q < s.len()) {
                                                    None
                                                } else if s[q] == ',' {
                                                    parse_top_members(s, q + 1, Some(entries))
                                                } else if s[q] == '}' {
                                                    Some((entries, q + 1))
                                                } else {
                                                    None
                                                }
                                            }
                                        },
                                        None => None,
                                    }
                                }
                            } else {
                                match skip_value(s, v) {
                                    Some(w) => {
                                        if !(v < w && w <= s.len()) {
                                            None
                                        } else {
                                            let q = ws_end(s, w);
                                            if !(w <= q && q < s.len()) {
                                                None
                                            } else if s[q] == ',' {
                                                parse_top_members(s, q + 1, found)
                                            } else if s[q] == '}' {
                                                match found {
                                                    Some(v2) => Some((v2, q + 1)),
                                                    None => None,
                                                }
                                            } else {
                                                None
                                            }
                                        }
                                    },
                                    None => None,
                                }
                            }
                        }
                    }
                },
                None => None,
            }
        }
    }
}

/// Reads a whole tree response: an object holding a `tree` array of entry
/// objects, with whitespace allowed between tokens and nothing but
/// whitespace after it.
pub open spec fn parse_tree_text(s: Seq<char>) -> Option<Seq<TreeEntryView>> {
    let i = ws_end(s, 0);
    if !(0 <= i && i < s.len() && s[i] == '{') {
        None
    } else {
        match parse_top_members(s, i + 1, None) {
            Some((v, d)) => {
                if ws_end(s, d) == s.len() {
                    Some(v)
                } else {
                    None
                }
            },
            None => None,
        }
    }
}

/// The exact download URL of one file.
pub open spec fn url_of(repo: Seq<char>, branch: Seq<char>, path: Seq<char>) -> Seq<char> {
    "https://raw.githubusercontent.com/"@ + repo + seq!['/'] + branch + seq!['/'] + path
}

/// The predicate keeping the entries whose node type is `blob`.
pub open spec fn blob_pred() -> spec_fn(TreeEntryView) -> bool {
    |e: TreeEntryView| e.1 == blob_tok()
}

/// The resolver of one entry to (display path, download URL).
pub open spec fn resolver(repo: Seq<char>, branch: Seq<char>) -> spec_fn(TreeEntryView) -> (
    Seq<char>,
    Seq<char>,
) {
    |e: TreeEntryView| (e.0, url_of(repo, branch, e.0))
}

/// What a tree response resolves to: its `blob` entries, in original order,
/// each with its exact download URL.
pub open spec fn resolved_of(
    entries: Seq<TreeEntryView>,
    repo: Seq<char>,
    branch: Seq<char>,
) -> Seq<(Seq<char>, Seq<char>)> {
    entries.filter(blob_pred()).map_values(resolver(repo, branch))
}

/// The view of a list of (display path, download URL) pairs.
pub open spec fn pairs_view(v: Seq<(String, String)>) -> Seq<(Seq<char>, Seq<char>)> {
    v.map_values(|p: (String, String)| (p.0@, p.1@))
}

/// The view of an optional list of (display path, download URL) pairs.
pub open spec fn opt_pairs_view(o: Option<Vec<(String, String)>>) -> Option<
    Seq<(Seq<char>, Seq<char>)>,
> {
    match o {
        Some(v) => Some(pairs_view(v@)),
        None => None,
    }
}

/// Reads one entry object as `parse_tree_entry` does.
fn parse_tree_entry_x(s: &str, i: usize) -> (r: Option<((String, String), usize)>)
    requires
        i <= s@.len(),
    ensures
        (match r {
            Some(p) => parse_tree_entry(s@, i as int) == Some(((p.0.0@, p.0.1@), p.1 as int)) && i
                < p.1 <= s@.len(),
            None => parse_tree_entry(s@, i as int) is None,
        }),
{
    let n = s.unicode_len();
    if !(i < n && s.get_char(i) == '{') {
        return None;
    }
    proof {
        reveal_strlit("path");
        reveal_strlit("type");
        assert("path"@ =~= path_key());
        assert("type"@ =~= type_key());
    }
    match two_str_members_x(s, i + 1, "path", "type", None, None) {
        Some(p) => Some(p),
        None => None,
    }
}

/// Reads the elements of the `tree` array as `parse_tree_elems` does.
fn parse_tree_elems_x(s: &str, i: usize, acc: Vec<(String, String)>, first: bool) -> (r: Option<
    (Vec<(String, String)>, usize),
>)
    requires
        i <= s@.len(),
    ensures
        (match r {
            Some(p) => parse_tree_elems(s@, i as int, pairs_view(acc@), first) == Some(
                (pairs_view(p.0@), p.1 as int),
            ) && p.1 <= s@.len(),
            None => parse_tree_elems(s@, i as int, pairs_view(acc@), first) is None,
        }),
    decreases s@.len() - i,
{
    let n = s.unicode_len();
    let j = ws_end_x(s, i);
    if j >= n {
        return None;
    }
    if s.get_char(j) == ']' {
        if first {
            return Some((acc, j + 1));
        } else {
            return None;
        }
    }
    match parse_tree_entry_x(s, j) {
        Some(pe) => {
            let k = pe.1;
            let m = ws_end_x(s, k);
            if m >= n {
                return None;
            }
            let cm = s.get_char(m);
            let ghost accv = acc@;
            if cm == ',' {
                let mut acc2 = acc;
                acc2.push(pe.0);
                proof {
                    assert(pairs_view(acc2@) =~= pairs_view(accv).push((pe.0.0@, pe.0.1@)));
                }
                parse_tree_elems_x(s, m + 1, acc2, false)
            } else if cm == ']' {
                let mut acc2 = acc;
                acc2.push(pe.0);
                proof {
                    assert(pairs_view(acc2@) =~= pairs_view(accv).push((pe.0.0@, pe.0.1@)));
                }
                Some((acc2, m + 1))
            } else {
                None
            }
        },
        None => None,
    }
}

/// Reads the members of the response object as `parse_top_members` does.
fn parse_top_members_x(s: &str, i: usize, found: Option<Vec<(String, String)>>) -> (r: Option<
    (Vec<(String, String)>, usize),
>)
    requires
        i <= s@.len(),
    ensures
        (match r {
            Some(p) => parse_top_members(s@, i as int, opt_pairs_view(found)) == Some(
                (pairs_view(p.0@), p.1 as int),
            ) && p.1 <= s@.len(),
            None => parse_top_members(s@, i as int, opt_pairs_view(found)) is None,
        }),
    decreases s@.len() - i,
{
    let n = s.unicode_len();
    let j = ws_end_x(s, i);
    if j >= n {
        return None;
    }
    if s.get_char(j) != '"' {
        return None;
    }
    match str_body_x(s, j + 1, String::new()) {
        Some(key) => {
            let k = key.1;
            let m = ws_end_x(s, k);
            if !(m < n && s.get_char(m) == ':') {
                return None;
            }
            let v = ws_end_x(s, m + 1);
            if v >= n {
                return None;
            }
            let trk = String::from_str("tree");
            proof {
                reveal_strlit("tree");
                assert("tree"@ =~= tree_key());
            }
            if key.0 == trk {
                if found.is_some() || s.get_char(v) != '[' {
                    return None;
                }
                proof {
                    assert(pairs_view(Seq::<(String, String)>::empty())
                        =~= Seq::<TreeEntryView>::empty());
                }
                match parse_tree_elems_x(s, v + 1, Vec::new(), true) {
                    Some(p) => {
                        let w = p.1;
                        if !(v < w && w <= n) {
                            return None;
                        }
                        let q = ws_end_x(s, w);
                        if q >= n {
                            return None;
                        }
                        let cq = s.get_char(q);
                        if cq == ',' {
                            parse_top_members_x(s, q + 1, Some(p.0))
                        } else if cq == '}' {
                            Some((p.0, q + 1))
                        } else {
                            None
                        }
                    },
                    None => None,
                }
            } else {
                match skip_value_x(s, v) {
                    Some(w) => {
                        if !(v < w && w <= n) {
                            return None;
                        }
                        let q = ws_end_x(s, w);
                        if q >= n {
                            return None;
                        }
                        let cq = s.get_char(q);
                        if cq == ',' {
                            parse_top_members_x(s, q + 1, found)
                        } else if cq == '}' {
                            match found {
                                Some(v2) => Some((v2, q + 1)),
                                None => None,
                            }
                        } else {
                            None
                        }
                    },
                    None => None,
                }
            }
        },
        None => None,
    }
}

/// Parses a raw tree response and resolves it: keeps only the `blob`
/// entries, in their original order, each as (path, download URL) with the
/// URL built exactly as `url_of` says. A response that does not follow the
/// grammar is `MalformedResponse`.
pub fn parse_repo_tree(contents: &str, repo: &str, branch: &str) -> (r: Result<
    Vec<(String, String)>,
    ToolError,
>)
    ensures
        (match r {
            Ok(files) => parse_tree_text(contents@) is Some && pairs_view(files@) == resolved_of(
                parse_tree_text(contents@)->Some_0,
                repo@,
                branch@,
            ),
            Err(e) => parse_tree_text(contents@) is None && e == ToolError::MalformedResponse,
        }),
{
    let n = contents.unicode_len();
    let i = ws_end_x(contents, 0);
    if !(i < n && contents.get_char(i) == '{') {
        return Err(ToolError::MalformedResponse);
    }
    match parse_top_members_x(contents, i + 1, None) {
        Some(p) => {
            if ws_end_x(contents, p.1) != n {
                return Err(ToolError::MalformedResponse);
            }
            let entries = p.0;
            let mut out: Vec<(String, String)> = Vec::new();
            let bl = String::from_str("blob");
            proof {
                reveal_strlit("blob");
                assert("blob"@ =~= blob_tok());
            }
            let mut idx: usize = 0;
            while idx < entries.len()
                invariant
                    idx <= entries@.len(),
                    bl@ == blob_tok(),
                    pairs_view(out@) == pairs_view(entries@).take(idx as int).filter(
                        blob_pred(),
                    ).map_values(resolver(repo@, branch@)),
                decreases entries@.len() - idx,
            {
                let ent = &entries[idx];
                let keep = ent.1 == bl;
                let ghost outv0 = out@;
                if keep {
                    let url = build_raw_url(repo, branch, ent.0.as_str());
                    let name = ent.0.clone();
                    out.push((name, url));
                }
                proof {
                    reveal(Seq::filter);
                    let rsl = resolver(repo@, branch@);
                    let pv = pairs_view(entries@);
                    assert(pv.take(idx + 1).drop_last() =~= pv.take(idx as int));
                    assert(pv.take(idx + 1).last() == pv[idx as int]);
                    assert(pv[idx as int] == (ent.0@, ent.1@));
                    assert(keep == blob_pred()(pv[idx as int]));
                    let f = pv.take(idx as int).filter(blob_pred());
                    let f2 = pv.take(idx + 1).filter(blob_pred());
                    if keep {
                        assert(f2 =~= f.push(pv[idx as int]));
                        assert(pairs_view(out@) =~= pairs_view(outv0).push(
                            (pv[idx as int].0, url_of(repo@, branch@, pv[idx as int].0)),
                        ));
                        assert(f2.map_values(rsl) =~= f.map_values(rsl).push(
                            rsl(pv[idx as int]),
                        ));
                    } else {
                        assert(f2 =~= f);
                    }
                    assert(pairs_view(out@) =~= f2.map_values(rsl));
                }
                idx += 1;
            }
            proof {
                assert(pairs_view(entries@).take(entries@.len() as int) =~= pairs_view(entries@));
            }
            Ok(out)
        },
        None => Err(ToolError::MalformedResponse),
    }
}

/// The exact download URL of one file, built from the repository, the
/// freshly resolved branch, and the path.
pub fn build_raw_url(repo: &str, branch: &str, path: &str) -> (r: String)
    ensures
        r@ == url_of(repo@, branch@, path@),
{
    let mut u = String::from_str("https://raw.githubusercontent.com/");
    u.append(repo);
    u.append("/");
    u.append(branch);
    u.append("/");
    u.append(path);
    proof {
        reveal_strlit("/");
        assert("/"@ =~= seq!['/']);
        assert(u@ =~= url_of(repo@, branch@, path@));
    }
    u
}

} // verus!
