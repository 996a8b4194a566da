//! The selection orchestrator's decisions: building the combined candidate
//! list, telling a tagged history line from a bare repository identifier,
//! looking the selection up, and choosing what to download.
//!
//! The interactive picker, the remote listing and the transfer are outside
//! collaborators; they hand these functions plain strings and take plain
//! values back.

use vstd::prelude::*;

use crate::errors::{AbortReason, ToolError};
use crate::history::{line_of, render_line, EntryView, History, HistoryEntry};
use crate::tree::pairs_view;

verus! {

/// The tag put before a history line in the combined candidate list.
pub open spec fn tag_tok() -> Seq<char> {
    seq!['[', 'H', 'i', 's', 't', 'o', 'r', 'y', ']', ' ']
}

/// The candidate line of one history entry: the tag, then `repo: file_path`.
pub open spec fn tagged_line(e: EntryView) -> Seq<char> {
    tag_tok() + line_of(e)
}

/// Whether a selection begins with the history tag.
pub open spec fn has_tag(s: Seq<char>) -> bool {
    s.len() >= 10 && s.subrange(0, 10) == tag_tok()
}

/// The selection with the history tag removed.
pub open spec fn strip_tag(s: Seq<char>) -> Seq<char> {
    s.skip(10)
}

/// The first history entry whose display line is `key`, if any.
pub open spec fn find_line(h: Seq<EntryView>, key: Seq<char>) -> Option<EntryView>
    decreases h.len(),
{
    if h.len() == 0 {
        None
    } else if line_of(h[0]) == key {
        Some(h[0])
    } else {
        find_line(h.drop_first(), key)
    }
}

/// The first file whose display path is `name`, if any; the result is its
/// download URL.
pub open spec fn find_file(files: Seq<(Seq<char>, Seq<char>)>, name: Seq<char>) -> Option<
    Seq<char>,
>
    decreases files.len(),
{
    if files.len() == 0 {
        None
    } else if files[0].0 == name {
        Some(files[0].1)
    } else {
        find_file(files.drop_first(), name)
    }
}

/// What the first selection round decided.
pub enum FirstChoice {
    /// The picker returned an empty selection.
    Aborted,
    /// A tagged history line that matches this stored entry.
    FromHistory(HistoryEntry),
    /// A tagged history line that matches no stored entry.
    Stale,
    /// A bare repository identifier.
    FromRepo(String),
}

/// The combined candidate list: every history entry as a tagged line, in
/// stored order, followed by every repository identifier, in listed order.
/// Nothing is sorted and nothing is deduplicated between the two groups.
pub fn build_candidates(history: &History, repos: &Vec<String>) -> (r: Vec<String>)
    ensures
        r@.len() == history@.len() + repos@.len(),
        forall|i: int| 0 <= i < history@.len() ==> r@[i]@ == tagged_line(history@[i]),
        forall|i: int|
            history@.len() <= i < r@.len() ==> r@[i]@ == repos@[i - history@.len()]@,
{
    let mut r: Vec<String> = Vec::new();
    let n = history.entries.len();
    let mut i: usize = 0;
    while i < n
        invariant
            n == history.entries@.len(),
            i <= n,
            r@.len() == i,
            forall|j: int| 0 <= j < i ==> r@[j]@ == tagged_line(history@[j]),
        decreases n - i,
    {
        let mut line = String::from_str("[History] ");
        proof {
            reveal_strlit("[History] ");
            assert("[History] "@ =~= tag_tok());
        }
        let rendered = render_line(&history.entries[i]);
        line.append(rendered.as_str());
        r.push(line);
        i += 1;
    }
    let m = repos.len();
    let mut k: usize = 0;
    while k < m
        invariant
            n == history.entries@.len(),
            m == repos@.len(),
            k <= m,
            r@.len() == n + k,
            forall|j: int| 0 <= j < n ==> r@[j]@ == tagged_line(history@[j]),
            forall|j: int| n <= j < n + k ==> r@[j]@ == repos@[j - n]@,
        decreases m - k,
    {
        r.push(repos[k].clone());
        k += 1;
    }
    r
}

/// Decides the first selection round: an empty selection aborts; a selection
/// bearing the history tag is looked up among the stored entries by its
/// display line (a miss is a stale entry, not a crash); anything else is
/// taken as a repository identifier.
pub fn first_selection(history: &History, selected: &str) -> (r: FirstChoice)
    ensures
        selected@.len() == 0 ==> r is Aborted,
        selected@.len() > 0 && has_tag(selected@) ==> (match find_line(
            history@,
            strip_tag(selected@),
        ) {
            Some(e) => r is FromHistory && r->FromHistory_0@ == e,
            None => r is Stale,
        }),
        selected@.len() > 0 && !has_tag(selected@) ==> r is FromRepo && r->FromRepo_0@
            == selected@,
{
    let n = selected.unicode_len();
    if n == 0 {
        return FirstChoice::Aborted;
    }
    let tagged = n >= 10 && selected.get_char(0) == '[' && selected.get_char(1) == 'H'
        && selected.get_char(2) == 'i' && selected.get_char(3) == 's' && selected.get_char(4)
        == 't' && selected.get_char(5) == 'o' && selected.get_char(6) == 'r' && selected.get_char(
        7,
    ) == 'y' && selected.get_char(8) == ']' && selected.get_char(9) == ' ';
    proof {
        if tagged {
            assert(selected@.subrange(0, 10) =~= tag_tok());
        }
        if has_tag(selected@) {
            assert(selected@.subrange(0, 10)[0] == '[');
            assert(selected@.subrange(0, 10)[1] == 'H');
            assert(selected@.subrange(0, 10)[2] == 'i');
            assert(selected@.subrange(0, 10)[3] == 's');
            assert(selected@.subrange(0, 10)[4] == 't');
            assert(selected@.subrange(0, 10)[5] == 'o');
            assert(selected@.subrange(0, 10)[6] == 'r');
            assert(selected@.subrange(0, 10)[7] == 'y');
            assert(selected@.subrange(0, 10)[8] == ']');
            assert(selected@.subrange(0, 10)[9] == ' ');
        }
    }
    if !tagged {
        return FirstChoice::FromRepo(String::from_str(selected));
    }
    let key = String::from_str(selected.substring_char(10, n));
    proof {
        assert(key@ =~= strip_tag(selected@));
    }
    let hn = history.entries.len();
    proof {
        assert(history@.skip(0) =~= history@);
    }
    let mut i: usize = 0;
    while i < hn
        invariant
            hn == history.entries@.len(),
            i <= hn,
            selected@.len() > 0,
            has_tag(selected@),
            key@ == strip_tag(selected@),
            find_line(history@, key@) == find_line(history@.skip(i as int), key@),
        decreases hn - i,
    {
        let line = render_line(&history.entries[i]);
        if line == key {
            proof {
                assert(history@.skip(i as int)[0] == history@[i as int]);
            }
            return FirstChoice::FromHistory(history.entries[i].clone());
        }
        proof {
            assert(history@.skip(i as int)[0] == history@[i as int]);
            assert(history@.skip(i as int).drop_first() =~= history@.skip(i + 1));
        }
        i += 1;
    }
    proof {
        assert(history@.skip(hn as int) =~= Seq::<EntryView>::empty());
    }
    FirstChoice::Stale
}

/// Decides the second selection round: an empty selection aborts; otherwise
/// the selection must name one of the resolved files, whose path and
/// download URL are returned; a miss is a defensive fault.
pub fn second_selection(files: &Vec<(String, String)>, selected: &str) -> (r: Result<
    (String, String),
    ToolError,
>)
    ensures
        selected@.len() == 0 ==> r == Err::<(String, String), ToolError>(
            ToolError::Aborted(AbortReason::NoFileSelected),
        ),
        selected@.len() > 0 ==> (match find_file(pairs_view(files@), selected@) {
            Some(u) => r is Ok && r->Ok_0.0@ == selected@ && r->Ok_0.1@ == u,
            None => r == Err::<(String, String), ToolError>(ToolError::SelectionMismatch),
        }),
{
    let n = selected.unicode_len();
    if n == 0 {
        return Err(ToolError::Aborted(AbortReason::NoFileSelected));
    }
    let key = String::from_str(selected);
    let fn_ = files.len();
    proof {
        assert(pairs_view(files@).skip(0) =~= pairs_view(files@));
    }
    let mut i: usize = 0;
    while i < fn_
        invariant
            fn_ == files@.len(),
            i <= fn_,
            selected@.len() > 0,
            key@ == selected@,
            find_file(pairs_view(files@), key@) == find_file(
                pairs_view(files@).skip(i as int),
                key@,
            ),
        decreases fn_ - i,
    {
        if files[i].0 == key {
            proof {
                assert(pairs_view(files@).skip(i as int)[0] == pairs_view(files@)[i as int]);
            }
            return Ok((files[i].0.clone(), files[i].1.clone()));
        }
        proof {
            assert(pairs_view(files@).skip(i as int)[0] == pairs_view(files@)[i as int]);
            assert(pairs_view(files@).skip(i as int).drop_first() =~= pairs_view(files@).skip(
                i + 1,
            ));
        }
        i += 1;
    }
    proof {
        assert(pairs_view(files@).skip(fn_ as int) =~= Seq::<(Seq<char>, Seq<char>)>::empty());
    }
    Err(ToolError::SelectionMismatch)
}

/// Decides whether a resolved repository is usable: one without files aborts
/// the run.
pub fn check_nonempty_files(files: &Vec<(String, String)>) -> (r: Result<(), ToolError>)
    ensures
        files@.len() == 0 <==> r == Err::<(), ToolError>(
            ToolError::Aborted(AbortReason::EmptyRepository),
        ),
        files@.len() > 0 <==> r is Ok,
{
    if files.len() == 0 {
        Err(ToolError::Aborted(AbortReason::EmptyRepository))
    } else {
        Ok(())
    }
}

} // verus!
